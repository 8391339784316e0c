//! The sync server's account commands (`ankisyncd.exe user ...`): when each
//! is run and with which arguments, and how the account listing is shown.
use vstd::prelude::*;
use vstd::utf8::{decode_utf8, valid_utf8};
use crate::text::{chars_of, newlines_to_spaces, push_char, trim, trim_chars};

verus! {

/// `String::from_utf8`: std documents that it returns the string when the
/// bytes are valid UTF-8 and an error otherwise; the contract claims that,
/// with the decoded characters as the string.
#[verifier::external_body]
fn string_from_utf8(bytes: Vec<u8>) -> (r: Result<String, std::string::FromUtf8Error>)
    ensures
        r is Ok <==> valid_utf8(bytes@),
        r matches Ok(s) ==> s@ == decode_utf8(bytes@),
{
    String::from_utf8(bytes)
}

/// The views of a list of strings.
pub open spec fn strings_view(v: Seq<String>) -> Seq<Seq<char>> {
    v.map_values(|s: String| s@)
}

/// The arguments of the command that deletes the account `name`, or `None`
/// when `name` is empty and nothing is run.
pub fn delusr_args(name: &str) -> (r: Option<Vec<String>>)
    ensures
        match r {
            Some(a) => name@.len() > 0 && strings_view(a@) == seq!["user"@, "-d"@, name@],
            None => name@.len() == 0,
        },
{
    if name.unicode_len() == 0 {
        return None;
    }
    let a = vec!["user".to_owned(), "-d".to_owned(), name.to_owned()];
    assert(strings_view(a@) =~= seq!["user"@, "-d"@, name@]);
    Some(a)
}

/// The arguments `user <flag> <name> <pass>` of an account command that
/// needs a name and a password, or `None` when both are empty and nothing is
/// run.
fn account_args(flag: &str, name: &str, pass: &str) -> (r: Option<Vec<String>>)
    ensures
        match r {
            Some(a) => !(name@.len() == 0 && pass@.len() == 0) && strings_view(a@) == seq![
                "user"@,
                flag@,
                name@,
                pass@,
            ],
            None => name@.len() == 0 && pass@.len() == 0,
        },
{
    if name.unicode_len() == 0 && pass.unicode_len() == 0 {
        return None;
    }
    let a = vec!["user".to_owned(), flag.to_owned(), name.to_owned(), pass.to_owned()];
    assert(strings_view(a@) =~= seq!["user"@, flag@, name@, pass@]);
    Some(a)
}

/// The arguments of the command that changes the password of `name` to
/// `pass`, or `None` when both are empty and nothing is run.
pub fn chgepass_args(name: &str, pass: &str) -> (r: Option<Vec<String>>)
    ensures
        match r {
            Some(a) => !(name@.len() == 0 && pass@.len() == 0) && strings_view(a@) == seq![
                "user"@,
                "-p"@,
                name@,
                pass@,
            ],
            None => name@.len() == 0 && pass@.len() == 0,
        },
{
    account_args("-p", name, pass)
}

/// The arguments of the command that adds the account `name` with the
/// password `pass`, or `None` when both are empty and nothing is run.
pub fn addusr_args(name: &str, pass: &str) -> (r: Option<Vec<String>>)
    ensures
        match r {
            Some(a) => !(name@.len() == 0 && pass@.len() == 0) && strings_view(a@) == seq![
                "user"@,
                "-a"@,
                name@,
                pass@,
            ],
            None => name@.len() == 0 && pass@.len() == 0,
        },
{
    account_args("-a", name, pass)
}

/// The arguments of mkcert that make the server's certificate for the
/// local names and the address `ipaddr`.
pub fn servcert_args(ipaddr: &str) -> (a: Vec<String>)
    ensures
        strings_view(a@) == seq!["localhost"@, "127.0.0.1"@, "::1"@, ipaddr@],
{
    let a = vec!["localhost".to_owned(), "127.0.0.1".to_owned(), "::1".to_owned(), ipaddr.to_owned()];
    assert(strings_view(a@) =~= seq!["localhost"@, "127.0.0.1"@, "::1"@, ipaddr@]);
    a
}

/// The account list on one line: the listing with surrounding whitespace
/// removed and its lines joined by spaces.
pub open spec fn user_list_spec(listing: Seq<char>) -> Seq<char> {
    newlines_to_spaces(trim(listing))
}

/// The account list keeps every character of the trimmed listing in its
/// place and turns only the line breaks into spaces.
pub proof fn lemma_user_list_chars(listing: Seq<char>)
    ensures
        user_list_spec(listing).len() == trim(listing).len(),
        forall|k: int|
            0 <= k < trim(listing).len() ==> #[trigger] user_list_spec(listing)[k] == if trim(
                listing,
            )[k] == '\n' {
                ' '
            } else {
                trim(listing)[k]
            },
{
}

/// The account list is shown on a single line.
pub proof fn lemma_user_list_one_line(listing: Seq<char>)
    ensures
        !user_list_spec(listing).contains('\n'),
{
    let out = user_list_spec(listing);
    if out.contains('\n') {
        let k = choose|k: int| 0 <= k < out.len() && out[k] == '\n';
        assert(out[k] == (if trim(listing)[k] == '\n' { ' ' } else { trim(listing)[k] }));
    }
}

/// Replaces each line break of `s` by a space.
fn join_lines(s: &str) -> (r: String)
    ensures
        r@ == newlines_to_spaces(s@),
{
    let v = chars_of(s);
    let mut r = String::new();
    let mut i: usize = 0;
    while i < v.len()
        invariant
            i <= v@.len(),
            v@ == s@,
            r@ == newlines_to_spaces(v@.take(i as int)),
        decreases v@.len() - i,
    {
        let c = v[i];
        if c == '\n' {
            push_char(&mut r, ' ');
        } else {
            push_char(&mut r, c);
        }
        assert(newlines_to_spaces(v@.take(i + 1)) =~= newlines_to_spaces(v@.take(i as int)).push(
            if c == '\n' { ' ' } else { c },
        ));
        i = i + 1;
    }
    assert(v@.take(v@.len() as int) =~= v@);
    r
}

/// The account list that `lsusr` shows, from the bytes that the server's
/// `user -l` command printed: an error when they are not UTF-8.
pub fn user_list(stdout: Vec<u8>) -> (r: Result<String, std::string::FromUtf8Error>)
    ensures
        r is Ok <==> valid_utf8(stdout@),
        r matches Ok(s) ==> s@ == user_list_spec(decode_utf8(stdout@)),
        r matches Ok(s) ==> s@.len() == trim(decode_utf8(stdout@)).len() && forall|k: int|
            0 <= k < s@.len() ==> #[trigger] s@[k] == if trim(decode_utf8(stdout@))[k] == '\n' {
                ' '
            } else {
                trim(decode_utf8(stdout@))[k]
            },
{
    let ghost bytes = stdout@;
    match string_from_utf8(stdout) {
        Ok(s) => {
            let t = trim_chars(s.as_str());
            proof {
                lemma_user_list_chars(decode_utf8(bytes));
            }
            Ok(join_lines(t.as_str()))
        },
        Err(e) => Err(e),
    }
}

} // verus!
