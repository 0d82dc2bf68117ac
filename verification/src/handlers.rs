use crate::text::{
    chars_equal, chars_of, occurs_at, split, split_on, starts_with, string_of, trim, trimmed,
    views_of,
};
use vstd::prelude::*;

verus! {

/// What stands before the session token in its cookie.
pub const SESSION_COOKIE_PREFIX: &'static str = "session_token=";

/// The character between the cookies of a cookie header.
pub const COOKIE_SEPARATOR: char = ';';

/// The word that asks for the prompt after the current one.
pub const NEXT_DIRECTION: &'static str = "next";

/// The word that asks for the prompt before the current one.
pub const PREVIOUS_DIRECTION: &'static str = "prev";

/// The session token that one cookie of a cookie header holds, if it is
/// the session cookie: what follows the prefix in the trimmed cookie.
pub open spec fn token_of_cookie(cookie: Seq<char>) -> Option<Seq<char>> {
    let text = trimmed(cookie);
    if occurs_at(text, SESSION_COOKIE_PREFIX@, 0) {
        Some(text.subrange(SESSION_COOKIE_PREFIX@.len() as int, text.len() as int))
    } else {
        None
    }
}

/// The session token of the first session cookie among the cookies from a
/// place on.
pub open spec fn first_token(cookies: Seq<Seq<char>>, from: int) -> Option<Seq<char>>
    decreases cookies.len() - from,
{
    if from < 0 || from >= cookies.len() {
        None
    } else {
        match token_of_cookie(cookies[from]) {
            Some(token) => Some(token),
            None => first_token(cookies, from + 1),
        }
    }
}

/// The session token that a cookie header holds: that of the first of its
/// cookies, which semicolons separate, that is a session cookie.
pub open spec fn spec_session_token(header: Seq<char>) -> Option<Seq<char>> {
    first_token(split_on(header, COOKIE_SEPARATOR), 0)
}

/// The session token that a cookie header holds, if it holds one.
pub fn session_token_of_header(header: &str) -> (r: Option<String>)
    ensures
        r is Some <==> spec_session_token(header@) is Some,
        r is Some ==> r->0@ == spec_session_token(header@)->0,
{
    let cookies = split(&chars_of(header), COOKIE_SEPARATOR);
    let prefix = chars_of(SESSION_COOKIE_PREFIX);
    let ghost all = split_on(header@, COOKIE_SEPARATOR);
    proof {
        assert(views_of(cookies@).len() == cookies@.len());
    }
    let mut i: usize = 0;
    while i < cookies.len()
        invariant
            i <= cookies.len(),
            all == split_on(header@, COOKIE_SEPARATOR),
            views_of(cookies@) == all,
            cookies@.len() == all.len(),
            prefix@ == SESSION_COOKIE_PREFIX@,
            first_token(all, i as int) == first_token(all, 0),
        decreases cookies.len() - i,
    {
        proof {
            assert(views_of(cookies@)[i as int] == cookies@[i as int]@);
        }
        let text = trim(&cookies[i]);
        proof {
            assert(text@ == trimmed(all[i as int]));
        }
        if starts_with(&text, &prefix) {
            let mut token: Vec<char> = Vec::new();
            let mut k: usize = prefix.len();
            while k < text.len()
                invariant
                    prefix.len() <= k <= text.len(),
                    token@ == text@.subrange(prefix@.len() as int, k as int),
                decreases text.len() - k,
            {
                token.push(text[k]);
                k += 1;
                assert(token@ =~= text@.subrange(prefix@.len() as int, k as int));
            }
            proof {
                assert(token_of_cookie(all[i as int]) == Some(token@));
                assert(first_token(all, i as int) == Some(token@));
            }
            return Some(string_of(&token));
        }
        proof {
            assert(token_of_cookie(all[i as int]) is None);
        }
        i += 1;
    }
    None
}

/// The number of the prompt that is reached from the current one: the one
/// after it, or the one before it but not below 1. Another direction than
/// `next` and `prev` leads nowhere, nor does `next` from the largest number.
pub open spec fn spec_navigate(current_prompt: u32, direction: Seq<char>) -> Option<u32> {
    if direction == NEXT_DIRECTION@ {
        if current_prompt < u32::MAX {
            Some((current_prompt + 1) as u32)
        } else {
            None
        }
    } else if direction == PREVIOUS_DIRECTION@ {
        if current_prompt > 1 {
            Some((current_prompt - 1) as u32)
        } else {
            Some(1)
        }
    } else {
        None
    }
}

/// The number of the prompt that is reached from the current one.
pub fn navigate_prompt(current_prompt: u32, direction: &str) -> (r: Option<u32>)
    ensures
        r == spec_navigate(current_prompt, direction@),
{
    let word = chars_of(direction);
    if chars_equal(&word, &chars_of(NEXT_DIRECTION)) {
        if current_prompt < u32::MAX {
            Some(current_prompt + 1)
        } else {
            None
        }
    } else if chars_equal(&word, &chars_of(PREVIOUS_DIRECTION)) {
        if current_prompt > 1 {
            Some(current_prompt - 1)
        } else {
            Some(1)
        }
    } else {
        None
    }
}

} // verus!
