use vstd::prelude::*;

use crate::number::{decimal, decimal_chars, parse_u64, parse_u64_spec, lemma_decimal_reads_back};
use crate::text::{chars_of, split_chars, split_on, string_of, views, lemma_split_on_contains};

verus! {

/// What the saved Twitter authorization holds: the account and the access
/// key pair.
pub struct AuthRecord {
    pub user_id: u64,
    pub username: String,
    pub key: String,
    pub secret: String,
}

/// The record that a saved authorization text `content` holds: its first
/// four lines are the decimal user id, the user name, the access key and the
/// access secret.  There is none when the text has fewer than four lines or
/// the first is not a `u64` in decimal.
pub open spec fn auth_of_text(content: Seq<char>) -> Option<(u64, Seq<char>, Seq<char>, Seq<char>)> {
    let l = split_on(content, '\n');
    if l.len() >= 4 && parse_u64_spec(l[0]) is Some {
        Some((parse_u64_spec(l[0]).unwrap(), l[1], l[2], l[3]))
    } else {
        None
    }
}

/// The text that saves `rec`: the user id in decimal, the user name, the
/// access key and the access secret, on lines of their own.
pub open spec fn auth_text(user_id: u64, username: Seq<char>, key: Seq<char>, secret: Seq<char>) -> Seq<char> {
    decimal(user_id as nat) + seq!['\n'] + username + seq!['\n'] + key + seq!['\n'] + secret
}

/// Reads a saved authorization.
pub fn parse_auth_record(content: &str) -> (r: Option<AuthRecord>)
    ensures
        match r {
            Some(a) => auth_of_text(content@) == Some((a.user_id, a.username@, a.key@, a.secret@)),
            None => auth_of_text(content@) is None,
        },
{
    let chars = chars_of(content);
    let lines = split_chars(&chars, '\n');
    if lines.len() < 4 {
        return None;
    }
    assert(lines@[0]@ == views(lines@)[0]);
    match parse_u64(&lines[0]) {
        Some(user_id) => {
            let username = string_of(&lines[1]);
            let key = string_of(&lines[2]);
            let secret = string_of(&lines[3]);
            assert(views(lines@)[1] == lines@[1]@);
            assert(views(lines@)[2] == lines@[2]@);
            assert(views(lines@)[3] == lines@[3]@);
            Some(AuthRecord { user_id, username, key, secret })
        },
        None => None,
    }
}

/// The text that saves `rec`.
pub fn auth_record_text(rec: &AuthRecord) -> (r: String)
    ensures
        r@ == auth_text(rec.user_id, rec.username@, rec.key@, rec.secret@),
{
    let mut out = string_of(&decimal_chars(rec.user_id));
    out.append("\n");
    out.append(rec.username.as_str());
    out.append("\n");
    out.append(rec.key.as_str());
    out.append("\n");
    out.append(rec.secret.as_str());
    proof {
        reveal_strlit("\n");
    }
    assert(out@ =~= auth_text(rec.user_id, rec.username@, rec.key@, rec.secret@));
    out
}

/// Saving an authorization and reading it back gives the same record, when
/// the user name, the key and the secret hold no line break.
pub proof fn law_auth_reads_back(user_id: u64, username: Seq<char>, key: Seq<char>, secret: Seq<char>)
    requires
        !username.contains('\n'),
        !key.contains('\n'),
        !secret.contains('\n'),
    ensures
        auth_of_text(auth_text(user_id, username, key, secret)) == Some((user_id, username, key, secret)),
{
    let d = decimal(user_id as nat);
    lemma_decimal_reads_back(user_id as nat);
    let t3 = key + seq!['\n'] + secret;
    let t2 = username + seq!['\n'] + t3;
    let t1 = d + seq!['\n'] + t2;
    crate::text::lemma_split_on_join(key, secret, '\n');
    crate::text::lemma_split_on_join(username, t3, '\n');
    crate::text::lemma_split_on_join(d, t2, '\n');
    crate::text::lemma_split_on_single(d, '\n');
    crate::text::lemma_split_on_single(username, '\n');
    crate::text::lemma_split_on_single(key, '\n');
    crate::text::lemma_split_on_single(secret, '\n');
    assert(auth_text(user_id, username, key, secret) =~= t1);
    let l = split_on(t1, '\n');
    assert(l =~= seq![d, username, key, secret]);
    assert(parse_u64_spec(d) == Some(user_id));
}

} // verus!
