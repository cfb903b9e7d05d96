//! Where a day's puzzle text is kept and fetched from, and how the fetched
//! bytes are read. Reading files and fetching are left to the caller.
use crate::pattern::string_of;
use crate::text::{chars_of, extend};
use vstd::prelude::*;

verus! {

/// The path of the file that keeps the text of `day`.
pub open spec fn cache_path_of(day: Seq<char>) -> Seq<char> {
    "./.cache/day"@ + day + ".input"@
}

/// The address from which the text of `day` of `year` is fetched.
pub open spec fn input_url_of(year: Seq<char>, day: Seq<char>) -> Seq<char> {
    "https://adventofcode.com/"@ + year + "/day/"@ + day + "/input"@
}

/// The cookie that carries the session key `key`.
pub open spec fn session_cookie_of(key: Seq<char>) -> Seq<char> {
    "session="@ + key
}

/// The text that fetched bytes stand for: every byte is the character of
/// the same number.
pub open spec fn decoded(bytes: Seq<u8>) -> Seq<char> {
    Seq::new(bytes.len(), |i: int| bytes[i] as char)
}

/// The path of the file that keeps the text of `day`.
pub fn cache_path(day: &str) -> (path: String)
    ensures
        path@ == cache_path_of(day@),
{
    let mut out = chars_of("./.cache/day");
    extend(&mut out, &chars_of(day));
    extend(&mut out, &chars_of(".input"));
    string_of(&out)
}

/// The address from which the text of `day` of `year` is fetched.
pub fn input_url(year: &str, day: &str) -> (url: String)
    ensures
        url@ == input_url_of(year@, day@),
{
    let mut out = chars_of("https://adventofcode.com/");
    extend(&mut out, &chars_of(year));
    extend(&mut out, &chars_of("/day/"));
    extend(&mut out, &chars_of(day));
    extend(&mut out, &chars_of("/input"));
    string_of(&out)
}

/// The cookie that carries the session key `key`.
pub fn session_cookie(key: &str) -> (cookie: String)
    ensures
        cookie@ == session_cookie_of(key@),
{
    let mut out = chars_of("session=");
    extend(&mut out, &chars_of(key));
    string_of(&out)
}

/// Appends to `text` the characters that `bytes` stand for.
pub fn decode_into(text: &mut Vec<char>, bytes: &[u8])
    ensures
        final(text)@ == old(text)@ + decoded(bytes@),
{
    let mut i: usize = 0;
    while i < bytes.len()
        invariant
            i <= bytes.len(),
            text@ == old(text)@ + decoded(bytes@).take(i as int),
        decreases bytes.len() - i,
    {
        text.push(bytes[i] as char);
        assert(decoded(bytes@).take(i + 1) =~= decoded(bytes@).take(i as int).push(
            bytes@[i as int] as char,
        ));
        i += 1;
    }
    assert(decoded(bytes@).take(i as int) =~= decoded(bytes@));
}

} // verus!
