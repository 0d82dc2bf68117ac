use crate::error::JournalError;
use crate::text::{
    chars_of, decimal, digit_char, digit_char_of, digit_value, digit_value_of, is_digit,
    is_digit_char, push_decimal, string_of,
};
use vstd::prelude::*;

verus! {

/// A date in the fixed calendar of 13 months of 4 weeks of 7 days.
///
/// Its code is five characters: two digits for the year of the cycle, one
/// character for the month (`0` to `9`, then `A`, `B`, `C`), one digit for the
/// week of the month and one for the day of the week, Sunday being 0.
#[derive(Debug, Clone, Copy, PartialEq, Eq, Hash, Structural)]
pub struct CycleDate {
    pub year_cycle: u8,
    pub month: u8,
    pub week: u8,
    pub day: u8,
}

/// Whether four numbers are the fields of a date of the cycle.
pub open spec fn components_in_range(year_cycle: int, month: int, week: int, day: int) -> bool {
    &&& 0 <= year_cycle <= 99
    &&& 0 <= month <= 12
    &&& 0 <= week <= 3
    &&& 0 <= day <= 6
}

/// The character that writes a month: a digit up to 9, then `A`, `B`, `C`;
/// `?` for a number that is no month.
pub open spec fn month_char_of(month: int) -> char {
    if 0 <= month <= 9 {
        digit_char_of(month)
    } else if month == 10 {
        'A'
    } else if month == 11 {
        'B'
    } else if month == 12 {
        'C'
    } else {
        '?'
    }
}

/// The month that a character writes, if any: a digit, or one of the
/// capital letters `A`, `B`, `C`.
pub open spec fn month_of_char(c: char) -> Option<int> {
    if is_digit_char(c) {
        Some(digit_value_of(c))
    } else if c == 'A' {
        Some(10)
    } else if c == 'B' {
        Some(11)
    } else if c == 'C' {
        Some(12)
    } else {
        None
    }
}

/// A number below 100 in two digits; a larger one in as many as it needs.
pub open spec fn two_digits(n: nat) -> Seq<char> {
    if n < 10 {
        seq!['0'].add(decimal(n))
    } else {
        decimal(n)
    }
}

/// What a text decodes to: the date it is the code of, or the reason why it
/// is the code of none.
pub open spec fn decode(s: Seq<char>) -> Result<CycleDate, JournalError> {
    if s.len() != 5 {
        Err(JournalError::InvalidDateString)
    } else if !is_digit_char(s[0]) || !is_digit_char(s[1]) {
        Err(JournalError::InvalidDateString)
    } else if month_of_char(s[2]) is None {
        Err(JournalError::InvalidDateString)
    } else if !is_digit_char(s[3]) || !is_digit_char(s[4]) {
        Err(JournalError::InvalidDateString)
    } else {
        let year_cycle = 10 * digit_value_of(s[0]) + digit_value_of(s[1]);
        let month = month_of_char(s[2])->0;
        let week = digit_value_of(s[3]);
        let day = digit_value_of(s[4]);
        if components_in_range(year_cycle, month, week, day) {
            Ok(
                CycleDate {
                    year_cycle: year_cycle as u8,
                    month: month as u8,
                    week: week as u8,
                    day: day as u8,
                },
            )
        } else {
            Err(JournalError::InvalidDateComponent)
        }
    }
}

/// The date that lies `index` days after the first day of the cycle, the
/// years counted modulo 100.
pub open spec fn date_at_index(index: int) -> CycleDate
    recommends
        0 <= index,
{
    CycleDate {
        year_cycle: ((index / 364) % 100) as u8,
        month: ((index % 364) / 28) as u8,
        week: ((index % 28) / 7) as u8,
        day: (index % 7) as u8,
    }
}

impl CycleDate {
    /// Every field lies in its range.
    pub open spec fn wf(&self) -> bool {
        components_in_range(
            self.year_cycle as int,
            self.month as int,
            self.week as int,
            self.day as int,
        )
    }

    /// The number of days from the first day of the cycle to this date: the
    /// key by which dates are ordered.
    pub open spec fn day_index(&self) -> int {
        self.year_cycle * 364 + self.month * 28 + self.week * 7 + self.day
    }

    /// The five characters of the date's code.
    pub open spec fn encode(&self) -> Seq<char> {
        two_digits(self.year_cycle as nat).push(month_char_of(self.month as int)).add(
            decimal(self.week as nat),
        ).add(decimal(self.day as nat))
    }

    /// The day before, the first day of the cycle being its own predecessor.
    pub open spec fn spec_previous_day(&self) -> CycleDate {
        if self.day_index() == 0 {
            *self
        } else {
            date_at_index(self.day_index() - 1)
        }
    }

    /// The day after, the last day of the cycle being followed by the first.
    pub open spec fn spec_next_day(&self) -> CycleDate {
        date_at_index((self.day_index() + 1) % 36400)
    }

    /// The date `back` days earlier, stopping at the first day of the cycle.
    pub open spec fn spec_days_back(&self, back: int) -> CycleDate {
        if self.day_index() <= back {
            date_at_index(0)
        } else {
            date_at_index(self.day_index() - back)
        }
    }

    /// Whether the date opens a week.
    pub open spec fn spec_is_first_day_of_week(&self) -> bool {
        self.day == 0
    }

    /// Whether the date opens a month.
    pub open spec fn spec_is_first_day_of_month(&self) -> bool {
        self.week == 0 && self.day == 0
    }

    /// Whether the date opens a year.
    pub open spec fn spec_is_first_day_of_year(&self) -> bool {
        self.month == 0 && self.week == 0 && self.day == 0
    }

    /// Makes a date of four fields, or says that one of them is out of range.
    pub fn new(year_cycle: u8, month: u8, week: u8, day: u8) -> (r: Result<CycleDate, JournalError>)
        ensures
            components_in_range(year_cycle as int, month as int, week as int, day as int) ==> r
                == Ok::<CycleDate, JournalError>(CycleDate { year_cycle, month, week, day }),
            !components_in_range(year_cycle as int, month as int, week as int, day as int) ==> r
                == Err::<CycleDate, JournalError>(JournalError::InvalidDateComponent),
            r is Ok ==> r->Ok_0.wf(),
    {
        if year_cycle > 99 {
            return Err(JournalError::InvalidDateComponent);
        }
        if month > 12 {
            return Err(JournalError::InvalidDateComponent);
        }
        if week > 3 {
            return Err(JournalError::InvalidDateComponent);
        }
        if day > 6 {
            return Err(JournalError::InvalidDateComponent);
        }
        Ok(CycleDate { year_cycle, month, week, day })
    }

    /// The date's code. It has five characters where the date is well formed.
    pub fn to_string(&self) -> (r: String)
        ensures
            r@ == self.encode(),
            self.wf() ==> r@.len() == 5,
    {
        let mut out: Vec<char> = Vec::new();
        if self.year_cycle < 10 {
            out.push('0');
        }
        push_decimal(&mut out, self.year_cycle as u64);
        assert(out@ =~= two_digits(self.year_cycle as nat));
        let month_char = if self.month <= 9 {
            digit_char(self.month)
        } else if self.month == 10 {
            'A'
        } else if self.month == 11 {
            'B'
        } else if self.month == 12 {
            'C'
        } else {
            '?'
        };
        out.push(month_char);
        push_decimal(&mut out, self.week as u64);
        push_decimal(&mut out, self.day as u64);
        proof {
            assert(out@ =~= self.encode());
            if self.wf() {
                lemma_encode_chars(*self);
            }
        }
        string_of(&out)
    }

    /// Reads a date from its code.
    ///
    /// A text of another length than five characters, or with a character
    /// that cannot stand at its place, is no code; five characters that name a
    /// week above 3 or a day above 6 have a field out of range. So a text
    /// that is read is the code of the date that is read from it.
    pub fn from_string(s: &str) -> (r: Result<CycleDate, JournalError>)
        ensures
            r == decode(s@),
            r is Ok ==> r->Ok_0.wf(),
            r is Ok ==> r->Ok_0.encode() == s@,
    {
        proof {
            if decode(s@) is Ok {
                lemma_encode_decode(s@);
            }
        }
        let chars = chars_of(s);
        if chars.len() != 5 {
            return Err(JournalError::InvalidDateString);
        }
        if !is_digit(chars[0]) || !is_digit(chars[1]) {
            return Err(JournalError::InvalidDateString);
        }
        let year_cycle: u8 = 10 * digit_value(chars[0]) + digit_value(chars[1]);
        let c: char = chars[2];
        let month: u8 = if is_digit(c) {
            digit_value(c)
        } else if c == 'A' {
            10
        } else if c == 'B' {
            11
        } else if c == 'C' {
            12
        } else {
            return Err(JournalError::InvalidDateString);
        };
        if !is_digit(chars[3]) || !is_digit(chars[4]) {
            return Err(JournalError::InvalidDateString);
        }
        let week: u8 = digit_value(chars[3]);
        let day: u8 = digit_value(chars[4]);
        CycleDate::new(year_cycle, month, week, day)
    }

    /// Whether the date opens a week.
    pub fn is_first_day_of_week(&self) -> (b: bool)
        ensures
            b == self.spec_is_first_day_of_week(),
            b == (self.day == 0),
    {
        self.day == 0
    }

    /// Whether the date opens a month, and so a week.
    pub fn is_first_day_of_month(&self) -> (b: bool)
        ensures
            b == self.spec_is_first_day_of_month(),
            b == (self.week == 0 && self.day == 0),
            b ==> self.spec_is_first_day_of_week(),
    {
        self.week == 0 && self.day == 0
    }

    /// Whether the date opens a year, and so a month and a week.
    pub fn is_first_day_of_year(&self) -> (b: bool)
        ensures
            b == self.spec_is_first_day_of_year(),
            b == (self.month == 0 && self.week == 0 && self.day == 0),
            b ==> self.spec_is_first_day_of_month(),
    {
        self.month == 0 && self.week == 0 && self.day == 0
    }

    /// The day before. The first day of the cycle has none and is returned
    /// as it is.
    pub fn previous_day(&self) -> (r: CycleDate)
        requires
            self.wf(),
        ensures
            r == self.spec_previous_day(),
            r.wf(),
            r.day_index() == if self.day_index() == 0 {
                0
            } else {
                self.day_index() - 1
            },
    {
        let r = if self.day > 0 {
            CycleDate {
                year_cycle: self.year_cycle,
                month: self.month,
                week: self.week,
                day: self.day - 1,
            }
        } else if self.week > 0 {
            CycleDate { year_cycle: self.year_cycle, month: self.month, week: self.week - 1, day: 6 }
        } else if self.month > 0 {
            CycleDate { year_cycle: self.year_cycle, month: self.month - 1, week: 3, day: 6 }
        } else if self.year_cycle > 0 {
            CycleDate { year_cycle: self.year_cycle - 1, month: 12, week: 3, day: 6 }
        } else {
            CycleDate { year_cycle: 0, month: 0, week: 0, day: 0 }
        };
        proof {
            lemma_previous_day_fields(*self, r);
        }
        r
    }

    /// The day after. The cycle is closed: the last day of year 99 is
    /// followed by the first day of year 0, so a code names one day in every
    /// hundred years of the calendar and not one day only.
    pub fn next_day(&self) -> (r: CycleDate)
        requires
            self.wf(),
        ensures
            r == self.spec_next_day(),
            r.wf(),
            r.day_index() == (self.day_index() + 1) % 36400,
    {
        let r = if self.day < 6 {
            CycleDate {
                year_cycle: self.year_cycle,
                month: self.month,
                week: self.week,
                day: self.day + 1,
            }
        } else if self.week < 3 {
            CycleDate { year_cycle: self.year_cycle, month: self.month, week: self.week + 1, day: 0 }
        } else if self.month < 12 {
            CycleDate { year_cycle: self.year_cycle, month: self.month + 1, week: 0, day: 0 }
        } else if self.year_cycle < 99 {
            CycleDate { year_cycle: self.year_cycle + 1, month: 0, week: 0, day: 0 }
        } else {
            CycleDate { year_cycle: 0, month: 0, week: 0, day: 0 }
        };
        proof {
            lemma_next_day_fields(*self, r);
        }
        r
    }

    /// The seven days that end with this one, the oldest first. Near the
    /// start of the cycle the first day of the cycle stands for the days that
    /// the calendar does not have.
    pub fn previous_week(&self) -> (r: Vec<CycleDate>)
        requires
            self.wf(),
        ensures
            r@.len() == 7,
            forall|i: int| 0 <= i < 7 ==> #[trigger] r@[i] == self.spec_days_back(6 - i),
            forall|i: int| 0 <= i < 7 ==> (#[trigger] r@[i]).wf(),
            forall|i: int, j: int|
                0 <= i <= j < 7 ==> (#[trigger] r@[i]).day_index() <= (#[trigger] r@[j]).day_index(),
            r@[6] == *self,
    {
        let mut newest_first: Vec<CycleDate> = Vec::new();
        let mut current = *self;
        let mut k: usize = 0;
        proof {
            lemma_index_roundtrip(*self);
            lemma_date_at_index(0);
        }
        while k < 7
            invariant
                k <= 7,
                self.wf(),
                current.wf(),
                current == self.spec_days_back(k as int),
                newest_first@.len() == k,
                forall|i: int| 0 <= i < k ==> #[trigger] newest_first@[i] == self.spec_days_back(i),
            decreases 7 - k,
        {
            newest_first.push(current);
            proof {
                lemma_date_at_index(0);
                if self.day_index() > k as int {
                    lemma_date_at_index(self.day_index() - k as int);
                }
                if self.day_index() > k as int + 1 {
                    lemma_date_at_index(self.day_index() - k as int - 1);
                }
            }
            current = current.previous_day();
            k += 1;
        }
        let mut dates: Vec<CycleDate> = Vec::new();
        let mut i: usize = 0;
        while i < 7
            invariant
                i <= 7,
                newest_first@.len() == 7,
                dates@.len() == i,
                forall|j: int| 0 <= j < i ==> #[trigger] dates@[j] == newest_first@[6 - j],
            decreases 7 - i,
        {
            dates.push(newest_first[6 - i]);
            i += 1;
        }
        proof {
            assert forall|i: int| 0 <= i < 7 implies #[trigger] dates@[i] == self.spec_days_back(
                6 - i,
            ) by {
                assert(dates@[i] == newest_first@[6 - i]);
            }
            assert forall|i: int| 0 <= i < 7 implies (#[trigger] dates@[i]).wf() by {
                lemma_days_back(*self, 6 - i);
            }
            assert forall|i: int, j: int| 0 <= i <= j < 7 implies (#[trigger] dates@[i]).day_index()
                <= (#[trigger] dates@[j]).day_index() by {
                lemma_days_back(*self, 6 - i);
                lemma_days_back(*self, 6 - j);
            }
            assert(dates@[6] == self.spec_days_back(0));
        }
        dates
    }
}

/// The date at any index from 0 on is well formed; the remainders by
/// which its week and its day are found are those of the index itself; and
/// its own index is the index with the years counted modulo 100.
pub proof fn lemma_index_fields(index: int)
    requires
        0 <= index,
    ensures
        (index % 364) % 28 == index % 28,
        (index % 28) % 7 == index % 7,
        ((index % 364) % 28) % 7 == index % 7,
        0 <= (index / 364) % 100 <= 99,
        0 <= (index % 364) / 28 <= 12,
        0 <= (index % 28) / 7 <= 3,
        0 <= index % 7 <= 6,
        date_at_index(index).wf(),
        date_at_index(index).day_index() == ((index / 364) % 100) * 364 + index % 364,
{
    let y = index / 364;
    let rest = index % 364;
    assert(index == 364 * y + rest);
    let m = rest / 28;
    let in_month = rest % 28;
    assert(rest == 28 * m + in_month);
    assert(index == 28 * (13 * y + m) + in_month);
    vstd::arithmetic::div_mod::lemma_fundamental_div_mod_converse(index, 28, 13 * y + m, in_month);
    let w = in_month / 7;
    let d = in_month % 7;
    assert(in_month == 7 * w + d);
    assert(index == 7 * (52 * y + 4 * m + w) + d);
    vstd::arithmetic::div_mod::lemma_fundamental_div_mod_converse(
        index,
        7,
        52 * y + 4 * m + w,
        d,
    );
}

/// The date at an index below the length of the cycle is well formed and
/// has that index.
pub proof fn lemma_date_at_index(index: int)
    requires
        0 <= index < 36400,
    ensures
        date_at_index(index).wf(),
        date_at_index(index).day_index() == index,
{
    lemma_index_fields(index);
    let y = index / 364;
    assert(0 <= y < 100);
    assert(y % 100 == y);
    assert(index == 364 * y + index % 364);
}

/// A well-formed date is the date at its own index, and its index lies in
/// the cycle.
pub proof fn lemma_index_roundtrip(d: CycleDate)
    requires
        d.wf(),
    ensures
        0 <= d.day_index() < 36400,
        date_at_index(d.day_index()) == d,
{
    let index = d.day_index();
    let y = d.year_cycle as int;
    let m = d.month as int;
    let w = d.week as int;
    let dd = d.day as int;
    vstd::arithmetic::div_mod::lemma_fundamental_div_mod_converse(
        index,
        364,
        y,
        28 * m + 7 * w + dd,
    );
    vstd::arithmetic::div_mod::lemma_fundamental_div_mod_converse(28 * m + 7 * w + dd, 28, m, 7 * w + dd);
    vstd::arithmetic::div_mod::lemma_fundamental_div_mod_converse(index, 28, 13 * y + m, 7 * w + dd);
    vstd::arithmetic::div_mod::lemma_fundamental_div_mod_converse(7 * w + dd, 7, w, dd);
    vstd::arithmetic::div_mod::lemma_fundamental_div_mod_converse(
        index,
        7,
        52 * y + 4 * m + w,
        dd,
    );
    assert(y % 100 == y);
}

/// Two well-formed dates with the same index are the same date.
pub proof fn lemma_day_index_injective(a: CycleDate, b: CycleDate)
    requires
        a.wf(),
        b.wf(),
        a.day_index() == b.day_index(),
    ensures
        a == b,
{
    lemma_index_roundtrip(a);
    lemma_index_roundtrip(b);
}

/// Going back from a well-formed date gives a well-formed date, whose index
/// is smaller by the number of days gone back, or zero.
pub proof fn lemma_days_back(d: CycleDate, back: int)
    requires
        d.wf(),
        0 <= back,
    ensures
        d.spec_days_back(back).wf(),
        d.spec_days_back(back).day_index() == if d.day_index() <= back {
            0
        } else {
            d.day_index() - back
        },
{
    lemma_index_roundtrip(d);
    lemma_date_at_index(0);
    if d.day_index() > back {
        lemma_date_at_index(d.day_index() - back);
    }
}

/// A well-formed date whose index is one less than that of another, or
/// zero where that is zero, is the day before the other.
pub proof fn lemma_previous_day_fields(d: CycleDate, r: CycleDate)
    requires
        d.wf(),
        r.wf(),
        r.day_index() == if d.day_index() == 0 {
            0
        } else {
            d.day_index() - 1
        },
    ensures
        r == d.spec_previous_day(),
{
    lemma_index_roundtrip(d);
    lemma_index_roundtrip(r);
}

/// A well-formed date whose index is one more than that of another, or
/// zero where the other is the last day of the cycle, is the day after the
/// other.
pub proof fn lemma_next_day_fields(d: CycleDate, r: CycleDate)
    requires
        d.wf(),
        r.wf(),
        r.day_index() == if d.day_index() == 36399 {
            0
        } else {
            d.day_index() + 1
        },
    ensures
        r == d.spec_next_day(),
        r.day_index() == (d.day_index() + 1) % 36400,
{
    lemma_index_roundtrip(d);
    lemma_index_roundtrip(r);
    let next = d.day_index() + 1;
    if next == 36400 {
        assert(36400int % 36400 == 0);
    } else {
        vstd::arithmetic::div_mod::lemma_small_mod(next as nat, 36400);
    }
}

/// The characters of a well-formed date's code, one by one.
pub proof fn lemma_encode_chars(d: CycleDate)
    requires
        d.wf(),
    ensures
        d.encode().len() == 5,
        d.encode()[0] == digit_char_of(d.year_cycle as int / 10),
        d.encode()[1] == digit_char_of(d.year_cycle as int % 10),
        d.encode()[2] == month_char_of(d.month as int),
        d.encode()[3] == digit_char_of(d.week as int),
        d.encode()[4] == digit_char_of(d.day as int),
{
    let y = d.year_cycle as nat;
    assert(decimal(d.week as nat) =~= seq![digit_char_of(d.week as int)]);
    assert(decimal(d.day as nat) =~= seq![digit_char_of(d.day as int)]);
    if y < 10 {
        assert(decimal(y) =~= seq![digit_char_of(y as int)]);
        assert(two_digits(y) =~= seq!['0', digit_char_of(y as int)]);
        assert(digit_char_of(0) == '0');
    } else {
        assert(decimal(y / 10) =~= seq![digit_char_of((y / 10) as int)]);
        assert(decimal(y) =~= seq![
            digit_char_of((y / 10) as int),
            digit_char_of((y % 10) as int),
        ]);
    }
    assert(two_digits(y).len() == 2);
}

/// Decoding the code of a well-formed date gives the date back.
pub proof fn lemma_decode_encode(d: CycleDate)
    requires
        d.wf(),
    ensures
        decode(d.encode()) == Ok::<CycleDate, JournalError>(d),
{
    lemma_encode_chars(d);
    let s = d.encode();
    let y = d.year_cycle as int;
    assert(is_digit_char(s[0]) && digit_value_of(s[0]) == y / 10);
    assert(is_digit_char(s[1]) && digit_value_of(s[1]) == y % 10);
    assert(month_of_char(s[2]) == Some(d.month as int));
    assert(is_digit_char(s[3]) && digit_value_of(s[3]) == d.week);
    assert(is_digit_char(s[4]) && digit_value_of(s[4]) == d.day);
    assert(10 * (y / 10) + y % 10 == y);
}

/// A text that decodes is the code of the date it decodes to: only the
/// code of a date is read as that date.
pub proof fn lemma_encode_decode(s: Seq<char>)
    requires
        decode(s) is Ok,
    ensures
        decode(s)->Ok_0.wf(),
        decode(s)->Ok_0.encode() == s,
{
    let d = decode(s)->Ok_0;
    lemma_encode_chars(d);
    let y = d.year_cycle as int;
    assert(y == 10 * digit_value_of(s[0]) + digit_value_of(s[1]));
    assert(y / 10 == digit_value_of(s[0]) && y % 10 == digit_value_of(s[1]));
    assert(digit_char_of(digit_value_of(s[0])) == s[0]);
    assert(digit_char_of(digit_value_of(s[1])) == s[1]);
    assert(month_char_of(d.month as int) == s[2]);
    assert(digit_char_of(digit_value_of(s[3])) == s[3]);
    assert(digit_char_of(digit_value_of(s[4])) == s[4]);
    assert(d.encode() =~= s);
}

/// The day after the day before a date is the date itself, but at the first
/// day of the cycle, which is its own predecessor.
pub proof fn lemma_next_of_previous(d: CycleDate)
    requires
        d.wf(),
        d.day_index() != 0,
    ensures
        d.spec_previous_day().spec_next_day() == d,
{
    lemma_index_roundtrip(d);
    let before = d.day_index() - 1;
    lemma_date_at_index(before);
    vstd::arithmetic::div_mod::lemma_small_mod(d.day_index() as nat, 36400);
    assert(d.spec_previous_day().day_index() == before);
}

/// At the first day of the cycle the day before is that day again, however
/// often it is asked for.
pub proof fn lemma_previous_day_floor(d: CycleDate)
    requires
        d.wf(),
        d.day_index() == 0,
    ensures
        d.spec_previous_day() == d,
        d.spec_previous_day().spec_previous_day() == d,
        d == (CycleDate { year_cycle: 0, month: 0, week: 0, day: 0 }),
{
}

/// The day before the day after a date is the date itself, but at the last
/// day of the cycle, after which the cycle starts again.
pub proof fn lemma_previous_of_next(d: CycleDate)
    requires
        d.wf(),
        d.day_index() != 36399,
    ensures
        d.spec_next_day().spec_previous_day() == d,
{
    lemma_index_roundtrip(d);
    let next = d.day_index() + 1;
    vstd::arithmetic::div_mod::lemma_small_mod(next as nat, 36400);
    lemma_date_at_index(next);
    assert(d.spec_next_day() == date_at_index(next));
    assert(d.spec_next_day().day_index() == next);
}

/// The first day of a year is the first day of a month, and the first day of
/// a month is the first day of a week.
pub proof fn lemma_role_precedence(d: CycleDate)
    ensures
        d.spec_is_first_day_of_year() ==> d.spec_is_first_day_of_month(),
        d.spec_is_first_day_of_month() ==> d.spec_is_first_day_of_week(),
{
}

} // verus!
