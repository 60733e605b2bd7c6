//! The envelope codec: the wire frame format.
//!
//! Each frame is one JSON object with the keys `message_type`, `message`,
//! `username` and `users`, exactly one of the three payload fields
//! populated according to the tag and the others `null`. `encode` emits
//! one canonical rendering: keys in schema order, no whitespace, every
//! control character escaped. `decode` accepts any rendering of the
//! schema: whitespace and key order are free, an absent payload field
//! reads as `null`, and the standard string escapes are understood,
//! `\uXXXX` included (lone surrogates are rejected, and surrogate pairs
//! are not combined). Anything else — non-JSON, an unknown tag or key, a
//! duplicate key, a missing payload — is rejected, and a rejected frame
//! is simply dropped by the session, the protocol having no error-reply
//! channel.

use vstd::prelude::*;
use crate::messages::{ChatMessage, ChatMessageModel, Envelope, EnvelopeModel};
use crate::text::{chars_of, push_char};
use vstd::string::StrSliceExecFns;

verus! {

/// The lowercase hexadecimal digit for a value below 16.
pub open spec fn hex_digit(d: nat) -> char {
    if d == 0 {
        '0'
    } else if d == 1 {
        '1'
    } else if d == 2 {
        '2'
    } else if d == 3 {
        '3'
    } else if d == 4 {
        '4'
    } else if d == 5 {
        '5'
    } else if d == 6 {
        '6'
    } else if d == 7 {
        '7'
    } else if d == 8 {
        '8'
    } else if d == 9 {
        '9'
    } else if d == 10 {
        'a'
    } else if d == 11 {
        'b'
    } else if d == 12 {
        'c'
    } else if d == 13 {
        'd'
    } else if d == 14 {
        'e'
    } else {
        'f'
    }
}

/// How one character appears inside a JSON string literal: quote and
/// backslash are escaped, the common control characters get their short
/// escapes, every other control character is written `\u00XX`, and
/// everything else stands for itself.
pub open spec fn esc_char(c: char) -> Seq<char> {
    if c == '"' {
        seq!['\\', '"']
    } else if c == '\\' {
        seq!['\\', '\\']
    } else if c == '\n' {
        seq!['\\', 'n']
    } else if c == '\r' {
        seq!['\\', 'r']
    } else if c == '\t' {
        seq!['\\', 't']
    } else if (c as u32) < 32 {
        seq!['\\', 'u', '0', '0', hex_digit(((c as u32) / 16) as nat), hex_digit(
            ((c as u32) % 16) as nat,
        )]
    } else {
        seq![c]
    }
}

/// A whole text with every character escaped.
pub open spec fn escaped(s: Seq<char>) -> Seq<char>
    decreases s.len(),
{
    if s.len() == 0 {
        Seq::empty()
    } else {
        escaped(s.drop_last()) + esc_char(s.last())
    }
}

/// A JSON string literal: the escaped text between double quotes.
pub open spec fn quoted(s: Seq<char>) -> Seq<char> {
    seq!['"'] + escaped(s) + seq!['"']
}

/// The comma-separated items of a non-empty JSON array of strings.
pub open spec fn users_items(u: Seq<Seq<char>>) -> Seq<char>
    decreases u.len(),
{
    if u.len() <= 1 {
        if u.len() == 0 {
            Seq::empty()
        } else {
            quoted(u[0])
        }
    } else {
        users_items(u.drop_last()) + seq![','] + quoted(u.last())
    }
}

/// A JSON array of strings.
pub open spec fn users_array(u: Seq<Seq<char>>) -> Seq<char> {
    seq!['['] + users_items(u) + seq![']']
}

/// The canonical frame text for an envelope.
pub open spec fn encode_spec(e: EnvelopeModel) -> Seq<char> {
    match e {
        EnvelopeModel::NewMessage(m) => "{\"message_type\":\"NewMessage\",\"message\":{\"author\":"@
            + quoted(m.author) + ",\"message\":"@ + quoted(m.message) + ",\"created_at\":"@
            + quoted(m.created_at) + "},\"username\":null,\"users\":null}"@,
        EnvelopeModel::UsernameChange(n) => "{\"message_type\":\"UsernameChange\",\"message\":null,\"username\":"@
            + quoted(n) + ",\"users\":null}"@,
        EnvelopeModel::UsersList(u) => "{\"message_type\":\"UsersList\",\"message\":null,\"username\":null,\"users\":"@
            + users_array(u) + "}"@,
    }
}

fn hex_digit_char(d: u32) -> (c: char)
    requires
        d < 16,
    ensures
        c == hex_digit(d as nat),
{
    if d == 0 {
        '0'
    } else if d == 1 {
        '1'
    } else if d == 2 {
        '2'
    } else if d == 3 {
        '3'
    } else if d == 4 {
        '4'
    } else if d == 5 {
        '5'
    } else if d == 6 {
        '6'
    } else if d == 7 {
        '7'
    } else if d == 8 {
        '8'
    } else if d == 9 {
        '9'
    } else if d == 10 {
        'a'
    } else if d == 11 {
        'b'
    } else if d == 12 {
        'c'
    } else if d == 13 {
        'd'
    } else if d == 14 {
        'e'
    } else {
        'f'
    }
}

/// Appends the JSON string literal for `t` to `s`.
fn append_quoted(s: &mut String, t: &str)
    ensures
        final(s)@ == old(s)@ + quoted(t@),
{
    push_char(s, '"');
    let n = t.unicode_len();
    let mut i: usize = 0;
    while i < n
        invariant
            i <= n,
            n == t@.len(),
            s@ == old(s)@ + seq!['"'] + escaped(t@.take(i as int)),
        decreases n - i,
    {
        let c = t.get_char(i);
        if c == '"' {
            push_char(s, '\\');
            push_char(s, '"');
        } else if c == '\\' {
            push_char(s, '\\');
            push_char(s, '\\');
        } else if c == '\n' {
            push_char(s, '\\');
            push_char(s, 'n');
        } else if c == '\r' {
            push_char(s, '\\');
            push_char(s, 'r');
        } else if c == '\t' {
            push_char(s, '\\');
            push_char(s, 't');
        } else if (c as u32) < 32 {
            let code = c as u32;
            push_char(s, '\\');
            push_char(s, 'u');
            push_char(s, '0');
            push_char(s, '0');
            push_char(s, hex_digit_char(code / 16));
            push_char(s, hex_digit_char(code % 16));
        } else {
            push_char(s, c);
        }
        proof {
            assert(t@.take(i + 1).drop_last() =~= t@.take(i as int));
            assert(t@.take(i + 1).last() == t@[i as int]);
            assert(escaped(t@.take(i + 1)) == escaped(t@.take(i as int)) + esc_char(t@[i as int]));
            assert(s@ =~= old(s)@ + seq!['"'] + escaped(t@.take(i + 1)));
        }
        i = i + 1;
    }
    push_char(s, '"');
    proof {
        assert(t@.take(n as int) =~= t@);
        assert(s@ =~= old(s)@ + quoted(t@));
    }
}

/// Appends the JSON array of the given names to `s`.
fn append_users(s: &mut String, users: &Vec<String>)
    ensures
        final(s)@ == old(s)@ + users_array(Seq::new(users@.len(), |k: int| users@[k]@)),
{
    let ghost u: Seq<Seq<char>> = Seq::new(users@.len(), |k: int| users@[k]@);
    push_char(s, '[');
    let n = users.len();
    let mut i: usize = 0;
    while i < n
        invariant
            i <= n,
            n == users@.len(),
            u == Seq::new(users@.len(), |k: int| users@[k]@),
            s@ == old(s)@ + seq!['['] + users_items(u.take(i as int)),
        decreases n - i,
    {
        if i > 0 {
            push_char(s, ',');
        }
        append_quoted(s, users[i].as_str());
        proof {
            assert(u.take(i + 1).drop_last() =~= u.take(i as int));
            assert(u.take(i + 1).last() == u[i as int]);
            assert(u[i as int] == users@[i as int]@);
            if i == 0 {
                assert(u.take(1).len() == 1);
                assert(users_items(u.take(1)) == quoted(u[0]));
                assert(s@ =~= old(s)@ + seq!['['] + users_items(u.take(i + 1)));
            } else {
                assert(u.take(i + 1).len() > 1);
                assert(users_items(u.take(i + 1)) == users_items(u.take(i as int)) + seq![',']
                    + quoted(u[i as int]));
                assert(s@ =~= old(s)@ + seq!['['] + users_items(u.take(i + 1)));
            }
        }
        i = i + 1;
    }
    push_char(s, ']');
    proof {
        assert(u.take(n as int) =~= u);
        assert(s@ =~= old(s)@ + users_array(u));
    }
}

/// Encodes an envelope into its canonical frame text.
pub fn encode(e: &Envelope) -> (r: String)
    ensures
        r@ == encode_spec(e@),
{
    let mut s = String::new();
    match e {
        Envelope::NewMessage(m) => {
            s.append("{\"message_type\":\"NewMessage\",\"message\":{\"author\":");
            append_quoted(&mut s, m.author.as_str());
            s.append(",\"message\":");
            append_quoted(&mut s, m.message.as_str());
            s.append(",\"created_at\":");
            append_quoted(&mut s, m.created_at.as_str());
            s.append("},\"username\":null,\"users\":null}");
            proof {
                assert(s@ =~= encode_spec(e@));
            }
        },
        Envelope::UsernameChange(n) => {
            s.append("{\"message_type\":\"UsernameChange\",\"message\":null,\"username\":");
            append_quoted(&mut s, n.as_str());
            s.append(",\"users\":null}");
            proof {
                assert(s@ =~= encode_spec(e@));
            }
        },
        Envelope::UsersList(u) => {
            s.append("{\"message_type\":\"UsersList\",\"message\":null,\"username\":null,\"users\":");
            append_users(&mut s, u);
            s.append("}");
            proof {
                assert(s@ =~= encode_spec(e@));
            }
        },
    }
    s
}

/// The character a single-letter JSON escape stands for, if the letter is
/// a valid escape.
pub open spec fn unescape(c: char) -> Option<char> {
    if c == '"' {
        Some('"')
    } else if c == '\\' {
        Some('\\')
    } else if c == '/' {
        Some('/')
    } else if c == 'n' {
        Some('\n')
    } else if c == 'r' {
        Some('\r')
    } else if c == 't' {
        Some('\t')
    } else if c == 'b' {
        Some('\u{0008}')
    } else if c == 'f' {
        Some('\u{000C}')
    } else {
        None
    }
}

/// The value of one hexadecimal digit, either case.
pub open spec fn hex_val(c: char) -> Option<int> {
    if c == '0' {
        Some(0)
    } else if c == '1' {
        Some(1)
    } else if c == '2' {
        Some(2)
    } else if c == '3' {
        Some(3)
    } else if c == '4' {
        Some(4)
    } else if c == '5' {
        Some(5)
    } else if c == '6' {
        Some(6)
    } else if c == '7' {
        Some(7)
    } else if c == '8' {
        Some(8)
    } else if c == '9' {
        Some(9)
    } else if c == 'a' || c == 'A' {
        Some(10)
    } else if c == 'b' || c == 'B' {
        Some(11)
    } else if c == 'c' || c == 'C' {
        Some(12)
    } else if c == 'd' || c == 'D' {
        Some(13)
    } else if c == 'e' || c == 'E' {
        Some(14)
    } else if c == 'f' || c == 'F' {
        Some(15)
    } else {
        None
    }
}

/// The code point a `\uXXXX` escape denotes, if its four digits are hex
/// and the value is not a surrogate (lone surrogates are rejected, and
/// surrogate pairs are not combined: such a frame is dropped).
pub open spec fn sp_u_escape(s: Seq<char>, i: int) -> Option<char> {
    match (hex_val(s[i]), hex_val(s[i + 1]), hex_val(s[i + 2]), hex_val(s[i + 3])) {
        (Some(h1), Some(h2), Some(h3), Some(h4)) => {
            let v = h1 * 4096 + h2 * 256 + h3 * 16 + h4;
            if 0xD800 <= v < 0xE000 {
                None
            } else {
                Some((v as u32) as char)
            }
        },
        _ => None,
    }
}

/// Parses the remainder of a JSON string literal starting just after the
/// opening quote at position `i`: the decoded text and the position just
/// past the closing quote. Raw control characters and unknown escapes are
/// rejected; `\uXXXX` is accepted for non-surrogate code points.
pub open spec fn sp_str_body(s: Seq<char>, i: int) -> Option<(Seq<char>, int)>
    decreases s.len() - i,
{
    if i < 0 || i >= s.len() {
        None
    } else if s[i] == '"' {
        Some((Seq::empty(), i + 1))
    } else if s[i] == '\\' {
        if i + 2 <= s.len() && s[i + 1] == 'u' {
            if i + 6 <= s.len() {
                match sp_u_escape(s, i + 2) {
                    Some(c) => match sp_str_body(s, i + 6) {
                        Some(p) => Some((seq![c] + p.0, p.1)),
                        None => None,
                    },
                    None => None,
                }
            } else {
                None
            }
        } else if i + 2 <= s.len() {
            match unescape(s[i + 1]) {
                Some(c) => match sp_str_body(s, i + 2) {
                    Some(p) => Some((seq![c] + p.0, p.1)),
                    None => None,
                },
                None => None,
            }
        } else {
            None
        }
    } else if (s[i] as u32) < 32 {
        None
    } else {
        match sp_str_body(s, i + 1) {
            Some(p) => Some((seq![s[i]] + p.0, p.1)),
            None => None,
        }
    }
}

/// Parses a complete JSON string literal (opening quote at `i`).
pub open spec fn sp_quoted(s: Seq<char>, i: int) -> Option<(Seq<char>, int)> {
    if 0 <= i && i < s.len() && s[i] == '"' {
        sp_str_body(s, i + 1)
    } else {
        None
    }
}

/// Matches the exact text `lit` at position `i`: the position just past it.
pub open spec fn sp_lit(s: Seq<char>, i: int, lit: Seq<char>) -> Option<int> {
    if 0 <= i && i + lit.len() <= s.len() && s.subrange(i, i + lit.len()) == lit {
        Some(i + lit.len())
    } else {
        None
    }
}

/// A JSON whitespace character.
pub open spec fn is_ws(c: char) -> bool {
    c == ' ' || c == '\n' || c == '\r' || c == '\t'
}

/// The first position at or after `i` holding no whitespace.
pub open spec fn sp_ws(s: Seq<char>, i: int) -> int
    decreases s.len() - i,
{
    if 0 <= i && i < s.len() && is_ws(s[i]) {
        sp_ws(s, i + 1)
    } else {
        i
    }
}

/// Parses what follows one item of a JSON array of strings: either the
/// closing bracket or a comma and another item, repeated, with whitespace
/// allowed around the punctuation.
pub open spec fn sp_users_rest(s: Seq<char>, i: int) -> Option<(Seq<Seq<char>>, int)>
    decreases s.len() - i,
{
    let j = sp_ws(s, i);
    if i <= j && j < s.len() {
        if s[j] == ']' {
            Some((Seq::empty(), j + 1))
        } else if s[j] == ',' {
            let j2 = sp_ws(s, j + 1);
            if j + 1 <= j2 && j2 <= s.len() {
                match sp_quoted(s, j2) {
                    Some(p) => if i < p.1 <= s.len() {
                        match sp_users_rest(s, p.1) {
                            Some(q) => Some((seq![p.0] + q.0, q.1)),
                            None => None,
                        }
                    } else {
                        None
                    },
                    None => None,
                }
            } else {
                None
            }
        } else {
            None
        }
    } else {
        None
    }
}

/// Parses a JSON array of strings (opening bracket at `i`), whitespace
/// allowed around the punctuation.
pub open spec fn sp_users(s: Seq<char>, i: int) -> Option<(Seq<Seq<char>>, int)> {
    if 0 <= i && i < s.len() && s[i] == '[' {
        let j = sp_ws(s, i + 1);
        if i + 1 <= j && j <= s.len() {
            if j < s.len() && s[j] == ']' {
                Some((Seq::empty(), j + 1))
            } else {
                match sp_quoted(s, j) {
                    Some(p) => if j < p.1 <= s.len() {
                        match sp_users_rest(s, p.1) {
                            Some(q) => Some((seq![p.0] + q.0, q.1)),
                            None => None,
                        }
                    } else {
                        None
                    },
                    None => None,
                }
            }
        } else {
            None
        }
    } else {
        None
    }
}

/// What the members of a frame object have bound so far: `None` while the
/// key has not appeared, and for the nullable payload fields `Some(None)`
/// when it was bound to `null`.
pub struct FrameFields {
    pub message_type: Option<Seq<char>>,
    pub message: Option<Option<ChatMessageModel>>,
    pub username: Option<Option<Seq<char>>>,
    pub users: Option<Option<Seq<Seq<char>>>>,
}

/// No member seen yet.
pub open spec fn empty_fields() -> FrameFields {
    FrameFields { message_type: None, message: None, username: None, users: None }
}

/// What the members of a nested message object have bound so far.
pub struct MsgFields {
    pub author: Option<Seq<char>>,
    pub message: Option<Seq<char>>,
    pub created_at: Option<Seq<char>>,
}

/// No member seen yet.
pub open spec fn empty_msg_fields() -> MsgFields {
    MsgFields { author: None, message: None, created_at: None }
}

/// Parses the members of a nested message object, starting at a key
/// (whitespace already skipped): string values under the keys `author`,
/// `message` and `created_at`, in any order, each at most once.
pub open spec fn sp_msg_members(s: Seq<char>, i: int, acc: MsgFields) -> Option<(MsgFields, int)>
    decreases s.len() - i,
{
    match sp_quoted(s, i) {
        Some(kp) => {
            let j = sp_ws(s, kp.1);
            if kp.1 <= j && j < s.len() && s[j] == ':' {
                let j2 = sp_ws(s, j + 1);
                if j + 1 <= j2 && j2 <= s.len() {
                    match sp_quoted(s, j2) {
                        Some(vp) => {
                            let acc2 = if kp.0 == "author"@ {
                                if acc.author is Some {
                                    None
                                } else {
                                    Some(MsgFields {
                                        author: Some(vp.0),
                                        message: acc.message,
                                        created_at: acc.created_at,
                                    })
                                }
                            } else if kp.0 == "message"@ {
                                if acc.message is Some {
                                    None
                                } else {
                                    Some(MsgFields {
                                        author: acc.author,
                                        message: Some(vp.0),
                                        created_at: acc.created_at,
                                    })
                                }
                            } else if kp.0 == "created_at"@ {
                                if acc.created_at is Some {
                                    None
                                } else {
                                    Some(MsgFields {
                                        author: acc.author,
                                        message: acc.message,
                                        created_at: Some(vp.0),
                                    })
                                }
                            } else {
                                None
                            };
                            match acc2 {
                                Some(a2) => {
                                    let j3 = sp_ws(s, vp.1);
                                    if vp.1 <= j3 && j3 < s.len() {
                                        if s[j3] == '}' {
                                            Some((a2, j3 + 1))
                                        } else if s[j3] == ',' {
                                            let j4 = sp_ws(s, j3 + 1);
                                            if j3 + 1 <= j4 && j4 <= s.len() && j4 > i {
                                                sp_msg_members(s, j4, a2)
                                            } else {
                                                None
                                            }
                                        } else {
                                            None
                                        }
                                    } else {
                                        None
                                    }
                                },
                                None => None,
                            }
                        },
                        None => None,
                    }
                } else {
                    None
                }
            } else {
                None
            }
        },
        None => None,
    }
}

/// Parses a nested message object (opening brace at `i`).
pub open spec fn sp_msg_object(s: Seq<char>, i: int) -> Option<(MsgFields, int)> {
    if 0 <= i && i < s.len() && s[i] == '{' {
        let j = sp_ws(s, i + 1);
        if i + 1 <= j && j < s.len() {
            if s[j] == '}' {
                Some((empty_msg_fields(), j + 1))
            } else {
                sp_msg_members(s, j, empty_msg_fields())
            }
        } else {
            None
        }
    } else {
        None
    }
}

/// A complete nested message: all three members present.
pub open spec fn finalize_msg(f: MsgFields) -> Option<ChatMessageModel> {
    match (f.author, f.message, f.created_at) {
        (Some(a), Some(m), Some(t)) => Some(
            ChatMessageModel { author: a, message: m, created_at: t },
        ),
        _ => None,
    }
}

/// Parses the members of a frame object, starting at a key (whitespace
/// already skipped): the schema's four keys in any order, each at most
/// once; `message_type` a string, `message` an object or `null`,
/// `username` a string or `null`, `users` an array or `null`.
pub open spec fn sp_members(s: Seq<char>, i: int, acc: FrameFields) -> Option<(FrameFields, int)>
    decreases s.len() - i,
{
    match sp_quoted(s, i) {
        Some(kp) => {
            let j = sp_ws(s, kp.1);
            if kp.1 <= j && j < s.len() && s[j] == ':' {
                let j2 = sp_ws(s, j + 1);
                if j + 1 <= j2 && j2 <= s.len() {
                    let vr: Option<(FrameFields, int)> = if kp.0 == "message_type"@ {
                        if acc.message_type is Some {
                            None
                        } else {
                            match sp_quoted(s, j2) {
                                Some(vp) => Some(
                                    (
                                        FrameFields {
                                            message_type: Some(vp.0),
                                            message: acc.message,
                                            username: acc.username,
                                            users: acc.users,
                                        },
                                        vp.1,
                                    ),
                                ),
                                None => None,
                            }
                        }
                    } else if kp.0 == "message"@ {
                        if acc.message is Some {
                            None
                        } else if j2 < s.len() && s[j2] == '{' {
                            match sp_msg_object(s, j2) {
                                Some(mp) => match finalize_msg(mp.0) {
                                    Some(m) => Some(
                                        (
                                            FrameFields {
                                                message_type: acc.message_type,
                                                message: Some(Some(m)),
                                                username: acc.username,
                                                users: acc.users,
                                            },
                                            mp.1,
                                        ),
                                    ),
                                    None => None,
                                },
                                None => None,
                            }
                        } else {
                            match sp_lit(s, j2, "null"@) {
                                Some(j5) => Some(
                                    (
                                        FrameFields {
                                            message_type: acc.message_type,
                                            message: Some(None),
                                            username: acc.username,
                                            users: acc.users,
                                        },
                                        j5,
                                    ),
                                ),
                                None => None,
                            }
                        }
                    } else if kp.0 == "username"@ {
                        if acc.username is Some {
                            None
                        } else if j2 < s.len() && s[j2] == '"' {
                            match sp_quoted(s, j2) {
                                Some(vp) => Some(
                                    (
                                        FrameFields {
                                            message_type: acc.message_type,
                                            message: acc.message,
                                            username: Some(Some(vp.0)),
                                            users: acc.users,
                                        },
                                        vp.1,
                                    ),
                                ),
                                None => None,
                            }
                        } else {
                            match sp_lit(s, j2, "null"@) {
                                Some(j5) => Some(
                                    (
                                        FrameFields {
                                            message_type: acc.message_type,
                                            message: acc.message,
                                            username: Some(None),
                                            users: acc.users,
                                        },
                                        j5,
                                    ),
                                ),
                                None => None,
                            }
                        }
                    } else if kp.0 == "users"@ {
                        if acc.users is Some {
                            None
                        } else if j2 < s.len() && s[j2] == '[' {
                            match sp_users(s, j2) {
                                Some(vp) => Some(
                                    (
                                        FrameFields {
                                            message_type: acc.message_type,
                                            message: acc.message,
                                            username: acc.username,
                                            users: Some(Some(vp.0)),
                                        },
                                        vp.1,
                                    ),
                                ),
                                None => None,
                            }
                        } else {
                            match sp_lit(s, j2, "null"@) {
                                Some(j5) => Some(
                                    (
                                        FrameFields {
                                            message_type: acc.message_type,
                                            message: acc.message,
                                            username: acc.username,
                                            users: Some(None),
                                        },
                                        j5,
                                    ),
                                ),
                                None => None,
                            }
                        }
                    } else {
                        None
                    };
                    match vr {
                        Some(av) => {
                            let j3 = sp_ws(s, av.1);
                            if av.1 <= j3 && j3 < s.len() {
                                if s[j3] == '}' {
                                    Some((av.0, j3 + 1))
                                } else if s[j3] == ',' {
                                    let j4 = sp_ws(s, j3 + 1);
                                    if j3 + 1 <= j4 && j4 <= s.len() && j4 > i {
                                        sp_members(s, j4, av.0)
                                    } else {
                                        None
                                    }
                                } else {
                                    None
                                }
                            } else {
                                None
                            }
                        },
                        None => None,
                    }
                } else {
                    None
                }
            } else {
                None
            }
        },
        None => None,
    }
}

/// The envelope a fully parsed frame object stands for: the tag picks the
/// payload field, which must be populated; an absent field counts as
/// `null`; values under the other keys are ignored, and an unknown tag is
/// dropped.
pub open spec fn finalize(f: FrameFields) -> Option<EnvelopeModel> {
    match f.message_type {
        Some(t) => if t == "NewMessage"@ {
            match f.message {
                Some(Some(m)) => Some(EnvelopeModel::NewMessage(m)),
                _ => None,
            }
        } else if t == "UsernameChange"@ {
            match f.username {
                Some(Some(n)) => Some(EnvelopeModel::UsernameChange(n)),
                _ => None,
            }
        } else if t == "UsersList"@ {
            match f.users {
                Some(Some(u)) => Some(EnvelopeModel::UsersList(u)),
                _ => None,
            }
        } else {
            None
        },
        None => None,
    }
}

/// The whole grammar: which envelope, if any, a frame text stands for —
/// one JSON object of the schema, whitespace and member order free,
/// absent payload fields read as `null`. This is the exact acceptance
/// condition of `decode`.
pub open spec fn decode_spec(s: Seq<char>) -> Option<EnvelopeModel> {
    let i0 = sp_ws(s, 0);
    if 0 <= i0 && i0 < s.len() && s[i0] == '{' {
        let i1 = sp_ws(s, i0 + 1);
        if i0 + 1 <= i1 && i1 <= s.len() {
            let r = if i1 < s.len() && s[i1] == '}' {
                Some((empty_fields(), i1 + 1))
            } else {
                sp_members(s, i1, empty_fields())
            };
            match r {
                Some(p) => if 0 <= p.1 <= s.len() && sp_ws(s, p.1) == s.len() {
                    finalize(p.0)
                } else {
                    None
                },
                None => None,
            }
        } else {
            None
        }
    } else {
        None
    }
}

fn ex_unescape(c: char) -> (r: Option<char>)
    ensures
        r == unescape(c),
{
    if c == '"' {
        Some('"')
    } else if c == '\\' {
        Some('\\')
    } else if c == '/' {
        Some('/')
    } else if c == 'n' {
        Some('\n')
    } else if c == 'r' {
        Some('\r')
    } else if c == 't' {
        Some('\t')
    } else if c == 'b' {
        Some('\u{0008}')
    } else if c == 'f' {
        Some('\u{000C}')
    } else {
        None
    }
}

fn ex_hex_val(c: char) -> (r: Option<u32>)
    ensures
        r is Some <==> hex_val(c) is Some,
        r matches Some(h) ==> (hex_val(c) matches Some(hs) && h as int == hs && h < 16),
{
    if c == '0' {
        Some(0)
    } else if c == '1' {
        Some(1)
    } else if c == '2' {
        Some(2)
    } else if c == '3' {
        Some(3)
    } else if c == '4' {
        Some(4)
    } else if c == '5' {
        Some(5)
    } else if c == '6' {
        Some(6)
    } else if c == '7' {
        Some(7)
    } else if c == '8' {
        Some(8)
    } else if c == '9' {
        Some(9)
    } else if c == 'a' || c == 'A' {
        Some(10)
    } else if c == 'b' || c == 'B' {
        Some(11)
    } else if c == 'c' || c == 'C' {
        Some(12)
    } else if c == 'd' || c == 'D' {
        Some(13)
    } else if c == 'e' || c == 'E' {
        Some(14)
    } else if c == 'f' || c == 'F' {
        Some(15)
    } else {
        None
    }
}

/// Relies on std's `char::from_u32`: `Some` exactly for valid code points
/// (not a surrogate, at most 0x10FFFF), and then the character whose code
/// is the argument.
#[verifier::external_body]
fn char_from_code(v: u32) -> (r: Option<char>)
    ensures
        r is Some <==> (v < 0xD800 || (0xE000 <= v && v <= 0x10FFFF)),
        r matches Some(c) ==> c as u32 == v,
{
    char::from_u32(v)
}

proof fn lemma_char_code_inj(a: char, b: char)
    requires
        a as u32 == b as u32,
    ensures
        a == b,
{
}

fn ex_str_body(v: &Vec<char>, i: usize) -> (r: Option<(String, usize)>)
    ensures
        r is Some <==> sp_str_body(v@, i as int) is Some,
        r matches Some(p) ==> (sp_str_body(v@, i as int) matches Some(q) && p.0@ == q.0 && p.1
            as int == q.1 && p.1 <= v@.len()),
    decreases v@.len() - i,
{
    if i >= v.len() {
        return None;
    }
    let c = v[i];
    if c == '"' {
        return Some((String::new(), i + 1));
    }
    if c == '\\' {
        if i + 1 >= v.len() {
            return None;
        }
        if v[i + 1] == 'u' {
            if v.len() - i < 6 {
                return None;
            }
            let h1 = ex_hex_val(v[i + 2]);
            let h2 = ex_hex_val(v[i + 3]);
            let h3 = ex_hex_val(v[i + 4]);
            let h4 = ex_hex_val(v[i + 5]);
            match (h1, h2, h3, h4) {
                (Some(a), Some(b), Some(e), Some(d)) => {
                    let code: u32 = a * 4096 + b * 256 + e * 16 + d;
                    if 0xD800 <= code && code < 0xE000 {
                        return None;
                    }
                    match char_from_code(code) {
                        Some(u) => {
                            proof {
                                assert(code as int == hex_val(v@[i + 2])->Some_0 * 4096 + hex_val(
                                    v@[i + 3],
                                )->Some_0 * 256 + hex_val(v@[i + 4])->Some_0 * 16 + hex_val(
                                    v@[i + 5],
                                )->Some_0);
                                assert(sp_u_escape(v@, i + 2) == Some(code as char));
                                assert((code as char) as u32 == code);
                                assert(u as u32 == code);
                                lemma_char_code_inj(code as char, u);
                                assert(sp_u_escape(v@, i + 2) == Some(u));
                            }
                            match ex_str_body(v, i + 6) {
                                Some(p) => {
                                    let mut s = String::new();
                                    push_char(&mut s, u);
                                    s.append(p.0.as_str());
                                    proof {
                                        assert(s@ =~= seq![u] + p.0@);
                                    }
                                    Some((s, p.1))
                                },
                                None => None,
                            }
                        },
                        None => None,
                    }
                },
                _ => None,
            }
        } else {
            match ex_unescape(v[i + 1]) {
                Some(u) => {
                    match ex_str_body(v, i + 2) {
                        Some(p) => {
                            let mut s = String::new();
                            push_char(&mut s, u);
                            s.append(p.0.as_str());
                            proof {
                                assert(s@ =~= seq![u] + p.0@);
                            }
                            Some((s, p.1))
                        },
                        None => None,
                    }
                },
                None => None,
            }
        }
    } else if (c as u32) < 32 {
        None
    } else {
        match ex_str_body(v, i + 1) {
            Some(p) => {
                let mut s = String::new();
                push_char(&mut s, c);
                s.append(p.0.as_str());
                proof {
                    assert(s@ =~= seq![c] + p.0@);
                }
                Some((s, p.1))
            },
            None => None,
        }
    }
}

fn ex_quoted(v: &Vec<char>, i: usize) -> (r: Option<(String, usize)>)
    ensures
        r is Some <==> sp_quoted(v@, i as int) is Some,
        r matches Some(p) ==> (sp_quoted(v@, i as int) matches Some(q) && p.0@ == q.0 && p.1
            as int == q.1 && p.1 <= v@.len()),
{
    if i < v.len() {
        let c = v[i];
        if c == '"' {
            return ex_str_body(v, i + 1);
        }
    }
    None
}

fn ex_lit(v: &Vec<char>, i: usize, lit: &Vec<char>) -> (r: Option<usize>)
    ensures
        r is Some <==> sp_lit(v@, i as int, lit@) is Some,
        r matches Some(j) ==> (sp_lit(v@, i as int, lit@) matches Some(jj) && j as int == jj && j
            <= v@.len()),
{
    let m = lit.len();
    if i > v.len() || m > v.len() - i {
        return None;
    }
    let mut k: usize = 0;
    while k < m
        invariant
            k <= m,
            m == lit@.len(),
            i + m <= v@.len(),
            v@.len() <= usize::MAX as int,
            forall|j: int| 0 <= j < k ==> v@[i + j] == lit@[j],
        decreases m - k,
    {
        if v[i + k] != lit[k] {
            proof {
                if sp_lit(v@, i as int, lit@) is Some {
                    assert(v@.subrange(i as int, i + m as int) == lit@);
                    assert(v@.subrange(i as int, i + m as int)[k as int] == v@[i + k]);
                    assert(false);
                }
            }
            return None;
        }
        k = k + 1;
    }
    proof {
        assert(v@.subrange(i as int, i + m as int) =~= lit@);
    }
    Some(i + m)
}

fn ex_ws(v: &Vec<char>, i: usize) -> (r: usize)
    requires
        i <= v@.len(),
    ensures
        r as int == sp_ws(v@, i as int),
        i <= r <= v@.len(),
    decreases v@.len() - i,
{
    if i < v.len() {
        let c = v[i];
        if c == ' ' || c == '\n' || c == '\r' || c == '\t' {
            return ex_ws(v, i + 1);
        }
    }
    i
}

fn ex_users_rest(v: &Vec<char>, i: usize) -> (r: Option<(Vec<String>, usize)>)
    requires
        i <= v@.len(),
    ensures
        r is Some <==> sp_users_rest(v@, i as int) is Some,
        r matches Some(p) ==> (sp_users_rest(v@, i as int) matches Some(q) && p.0@.len()
            == q.0.len() && (forall|k: int| 0 <= k < q.0.len() ==> #[trigger] p.0@[k]@ == q.0[k])
            && p.1 as int == q.1 && p.1 <= v@.len()),
    decreases v@.len() - i,
{
    let j = ex_ws(v, i);
    if j >= v.len() {
        return None;
    }
    let c = v[j];
    if c == ']' {
        return Some((Vec::new(), j + 1));
    }
    if c == ',' {
        let j2 = ex_ws(v, j + 1);
        match ex_quoted(v, j2) {
            Some(p) => {
                if p.1 > i {
                    match ex_users_rest(v, p.1) {
                        Some(q) => {
                            let mut out: Vec<String> = Vec::new();
                            out.push(p.0);
                            let mut rest = q.0;
                            out.append(&mut rest);
                            Some((out, q.1))
                        },
                        None => None,
                    }
                } else {
                    None
                }
            },
            None => None,
        }
    } else {
        None
    }
}

fn ex_users(v: &Vec<char>, i: usize) -> (r: Option<(Vec<String>, usize)>)
    ensures
        r is Some <==> sp_users(v@, i as int) is Some,
        r matches Some(p) ==> (sp_users(v@, i as int) matches Some(q) && p.0@.len() == q.0.len()
            && (forall|k: int| 0 <= k < q.0.len() ==> #[trigger] p.0@[k]@ == q.0[k]) && p.1 as int
            == q.1 && p.1 <= v@.len()),
{
    if i < v.len() {
        let c = v[i];
        if c == '[' {
            let j = ex_ws(v, i + 1);
            if j < v.len() {
                let c2 = v[j];
                if c2 == ']' {
                    return Some((Vec::new(), j + 1));
                }
            }
            match ex_quoted(v, j) {
                Some(p) => {
                    if p.1 > j {
                        match ex_users_rest(v, p.1) {
                            Some(q) => {
                                let mut out: Vec<String> = Vec::new();
                                out.push(p.0);
                                let mut rest = q.0;
                                out.append(&mut rest);
                                return Some((out, q.1));
                            },
                            None => {
                                return None;
                            },
                        }
                    } else {
                        return None;
                    }
                },
                None => {
                    return None;
                },
            }
        }
    }
    None
}

/// The exec accumulator mirroring `MsgFields`.
struct MFields {
    author: Option<String>,
    message: Option<String>,
    created_at: Option<String>,
}

impl MFields {
    spec fn model(&self) -> MsgFields {
        MsgFields {
            author: match self.author {
                Some(a) => Some(a@),
                None => None,
            },
            message: match self.message {
                Some(m) => Some(m@),
                None => None,
            },
            created_at: match self.created_at {
                Some(t) => Some(t@),
                None => None,
            },
        }
    }
}

/// The exec accumulator mirroring `FrameFields`.
struct FFields {
    message_type: Option<String>,
    message: Option<Option<ChatMessage>>,
    username: Option<Option<String>>,
    users: Option<Option<Vec<String>>>,
}

impl FFields {
    spec fn model(&self) -> FrameFields {
        FrameFields {
            message_type: match self.message_type {
                Some(t) => Some(t@),
                None => None,
            },
            message: match self.message {
                Some(Some(m)) => Some(Some(m@)),
                Some(None) => Some(None),
                None => None,
            },
            username: match self.username {
                Some(Some(n)) => Some(Some(n@)),
                Some(None) => Some(None),
                None => None,
            },
            users: match self.users {
                Some(Some(u)) => Some(
                    Some(Seq::new(u@.len(), |k: int| u@[k]@)),
                ),
                Some(None) => Some(None),
                None => None,
            },
        }
    }
}

fn ex_msg_members(v: &Vec<char>, i: usize, acc: MFields) -> (r: Option<(MFields, usize)>)
    requires
        i <= v@.len(),
    ensures
        r is Some <==> sp_msg_members(v@, i as int, acc.model()) is Some,
        r matches Some(p) ==> (sp_msg_members(v@, i as int, acc.model()) matches Some(q)
            && p.0.model() == q.0 && p.1 as int == q.1 && p.1 <= v@.len()),
    decreases v@.len() - i,
{
    match ex_quoted(v, i) {
        Some(kp) => {
            let j = ex_ws(v, kp.1);
            if j >= v.len() || v[j] != ':' {
                return None;
            }
            let j2 = ex_ws(v, j + 1);
            match ex_quoted(v, j2) {
                Some(vp) => {
                    let a2: Option<MFields> = if kp.0 == String::from_str("author") {
                        match acc.author {
                            Some(_) => None,
                            None => Some(MFields {
                                author: Some(vp.0),
                                message: acc.message,
                                created_at: acc.created_at,
                            }),
                        }
                    } else if kp.0 == String::from_str("message") {
                        match acc.message {
                            Some(_) => None,
                            None => Some(MFields {
                                author: acc.author,
                                message: Some(vp.0),
                                created_at: acc.created_at,
                            }),
                        }
                    } else if kp.0 == String::from_str("created_at") {
                        match acc.created_at {
                            Some(_) => None,
                            None => Some(MFields {
                                author: acc.author,
                                message: acc.message,
                                created_at: Some(vp.0),
                            }),
                        }
                    } else {
                        None
                    };
                    match a2 {
                        Some(a3) => {
                            let j3 = ex_ws(v, vp.1);
                            if j3 >= v.len() {
                                return None;
                            }
                            let c3 = v[j3];
                            if c3 == '}' {
                                Some((a3, j3 + 1))
                            } else if c3 == ',' {
                                let j4 = ex_ws(v, j3 + 1);
                                if j4 > i {
                                    ex_msg_members(v, j4, a3)
                                } else {
                                    None
                                }
                            } else {
                                None
                            }
                        },
                        None => None,
                    }
                },
                None => None,
            }
        },
        None => None,
    }
}

fn ex_msg_object(v: &Vec<char>, i: usize) -> (r: Option<(MFields, usize)>)
    ensures
        r is Some <==> sp_msg_object(v@, i as int) is Some,
        r matches Some(p) ==> (sp_msg_object(v@, i as int) matches Some(q) && p.0.model() == q.0
            && p.1 as int == q.1 && p.1 <= v@.len()),
{
    if i < v.len() {
        let c = v[i];
        if c == '{' {
            let j = ex_ws(v, i + 1);
            if j >= v.len() {
                return None;
            }
            let empty = MFields { author: None, message: None, created_at: None };
            proof {
                assert(empty.model() == empty_msg_fields());
            }
            if v[j] == '}' {
                return Some((empty, j + 1));
            }
            return ex_msg_members(v, j, empty);
        }
    }
    None
}

fn ex_members(v: &Vec<char>, i: usize, acc: FFields) -> (r: Option<(FFields, usize)>)
    requires
        i <= v@.len(),
    ensures
        r is Some <==> sp_members(v@, i as int, acc.model()) is Some,
        r matches Some(p) ==> (sp_members(v@, i as int, acc.model()) matches Some(q) && p.0.model()
            == q.0 && p.1 as int == q.1 && p.1 <= v@.len()),
    decreases v@.len() - i,
{
    match ex_quoted(v, i) {
        Some(kp) => {
            let j = ex_ws(v, kp.1);
            if j >= v.len() || v[j] != ':' {
                return None;
            }
            let j2 = ex_ws(v, j + 1);
            let vr: Option<(FFields, usize)> = if kp.0 == String::from_str("message_type") {
                match acc.message_type {
                    Some(_) => None,
                    None => match ex_quoted(v, j2) {
                        Some(vp) => Some(
                            (
                                FFields {
                                    message_type: Some(vp.0),
                                    message: acc.message,
                                    username: acc.username,
                                    users: acc.users,
                                },
                                vp.1,
                            ),
                        ),
                        None => None,
                    },
                }
            } else if kp.0 == String::from_str("message") {
                match acc.message {
                    Some(_) => None,
                    None => {
                        if j2 < v.len() && v[j2] == '{' {
                            match ex_msg_object(v, j2) {
                                Some(mp) => match (mp.0.author, mp.0.message, mp.0.created_at) {
                                    (Some(a), Some(m), Some(t)) => Some(
                                        (
                                            FFields {
                                                message_type: acc.message_type,
                                                message: Some(
                                                    Some(
                                                        ChatMessage {
                                                            author: a,
                                                            message: m,
                                                            created_at: t,
                                                        },
                                                    ),
                                                ),
                                                username: acc.username,
                                                users: acc.users,
                                            },
                                            mp.1,
                                        ),
                                    ),
                                    _ => None,
                                },
                                None => None,
                            }
                        } else {
                            let nl = chars_of("null");
                            match ex_lit(v, j2, &nl) {
                                Some(j5) => Some(
                                    (
                                        FFields {
                                            message_type: acc.message_type,
                                            message: Some(None),
                                            username: acc.username,
                                            users: acc.users,
                                        },
                                        j5,
                                    ),
                                ),
                                None => None,
                            }
                        }
                    },
                }
            } else if kp.0 == String::from_str("username") {
                match acc.username {
                    Some(_) => None,
                    None => {
                        if j2 < v.len() && v[j2] == '"' {
                            match ex_quoted(v, j2) {
                                Some(vp) => Some(
                                    (
                                        FFields {
                                            message_type: acc.message_type,
                                            message: acc.message,
                                            username: Some(Some(vp.0)),
                                            users: acc.users,
                                        },
                                        vp.1,
                                    ),
                                ),
                                None => None,
                            }
                        } else {
                            let nl = chars_of("null");
                            match ex_lit(v, j2, &nl) {
                                Some(j5) => Some(
                                    (
                                        FFields {
                                            message_type: acc.message_type,
                                            message: acc.message,
                                            username: Some(None),
                                            users: acc.users,
                                        },
                                        j5,
                                    ),
                                ),
                                None => None,
                            }
                        }
                    },
                }
            } else if kp.0 == String::from_str("users") {
                match acc.users {
                    Some(_) => None,
                    None => {
                        if j2 < v.len() && v[j2] == '[' {
                            match ex_users(v, j2) {
                                Some(vp) => {
                                    proof {
                                        let q = sp_users(v@, j2 as int)->Some_0;
                                        assert(Seq::new(vp.0@.len(), |k: int| vp.0@[k]@) =~= q.0);
                                    }
                                    Some(
                                        (
                                            FFields {
                                                message_type: acc.message_type,
                                                message: acc.message,
                                                username: acc.username,
                                                users: Some(Some(vp.0)),
                                            },
                                            vp.1,
                                        ),
                                    )
                                },
                                None => None,
                            }
                        } else {
                            let nl = chars_of("null");
                            match ex_lit(v, j2, &nl) {
                                Some(j5) => Some(
                                    (
                                        FFields {
                                            message_type: acc.message_type,
                                            message: acc.message,
                                            username: acc.username,
                                            users: Some(None),
                                        },
                                        j5,
                                    ),
                                ),
                                None => None,
                            }
                        }
                    },
                }
            } else {
                None
            };
            match vr {
                Some(av) => {
                    let j3 = ex_ws(v, av.1);
                    if j3 >= v.len() {
                        return None;
                    }
                    let c3 = v[j3];
                    if c3 == '}' {
                        Some((av.0, j3 + 1))
                    } else if c3 == ',' {
                        let j4 = ex_ws(v, j3 + 1);
                        if j4 > i {
                            ex_members(v, j4, av.0)
                        } else {
                            None
                        }
                    } else {
                        None
                    }
                },
                None => None,
            }
        },
        None => None,
    }
}

fn finalize_fields(f: FFields) -> (r: Option<Envelope>)
    ensures
        r is Some <==> finalize(f.model()) is Some,
        r matches Some(e) ==> (finalize(f.model()) matches Some(m) && e@ == m),
{
    match f.message_type {
        Some(t) => {
            if t == String::from_str("NewMessage") {
                match f.message {
                    Some(Some(m)) => Some(Envelope::NewMessage(m)),
                    _ => None,
                }
            } else if t == String::from_str("UsernameChange") {
                match f.username {
                    Some(Some(n)) => Some(Envelope::UsernameChange(n)),
                    _ => None,
                }
            } else if t == String::from_str("UsersList") {
                match f.users {
                    Some(Some(u)) => {
                        proof {
                            assert(Seq::new(u@.len(), |k: int| u@[k]@) == Seq::new(
                                u@.len(),
                                |k: int| u@[k]@,
                            ));
                        }
                        Some(Envelope::UsersList(u))
                    },
                    _ => None,
                }
            } else {
                None
            }
        },
        None => None,
    }
}




/// Decodes one frame text: `Some` exactly when the text is a well-formed
/// frame of the grammar (`decode_spec`), and then the envelope it stands
/// for. Anything else — non-JSON, an unknown tag, a missing payload — is
/// `None`, which the session drops silently.
pub fn decode(s: &str) -> (r: Option<Envelope>)
    ensures
        r is Some <==> decode_spec(s@) is Some,
        r matches Some(e) ==> (decode_spec(s@) matches Some(m) && e@ == m),
{
    let v = chars_of(s);
    let i0 = ex_ws(&v, 0);
    if i0 >= v.len() || v[i0] != '{' {
        return None;
    }
    let i1 = ex_ws(&v, i0 + 1);
    let empty = FFields { message_type: None, message: None, username: None, users: None };
    proof {
        assert(empty.model() == empty_fields());
    }
    let parsed: Option<(FFields, usize)> = if i1 < v.len() && v[i1] == '}' {
        Some((empty, i1 + 1))
    } else {
        ex_members(&v, i1, empty)
    };
    match parsed {
        Some(p) => {
            if ex_ws(&v, p.1) == v.len() {
                finalize_fields(p.0)
            } else {
                None
            }
        },
        None => None,
    }
}

/// `escaped` seen from the front: the escape of the first character,
/// then the escape of the rest.
proof fn lemma_escaped_head(x: Seq<char>)
    requires
        x.len() > 0,
    ensures
        escaped(x) == esc_char(x[0]) + escaped(x.drop_first()),
    decreases x.len(),
{
    if x.len() == 1 {
        assert(x.drop_last() =~= Seq::<char>::empty());
        assert(x.drop_first() =~= Seq::<char>::empty());
        assert(x.last() == x[0]);
        assert(escaped(x) =~= esc_char(x[0]) + escaped(x.drop_first()));
    } else {
        lemma_escaped_head(x.drop_last());
        assert(x.drop_last().drop_first() =~= x.drop_first().drop_last());
        assert(x.drop_last()[0] == x[0]);
        assert(x.drop_first().last() == x.last());
        assert(escaped(x) == escaped(x.drop_last()) + esc_char(x.last()));
        assert(escaped(x.drop_last()) == esc_char(x[0]) + escaped(x.drop_first().drop_last()));
        assert(escaped(x.drop_first()) == escaped(x.drop_first().drop_last()) + esc_char(
            x.drop_first().last(),
        ));
        assert(escaped(x) =~= esc_char(x[0]) + escaped(x.drop_first()));
    }
}

/// The string-literal parser undoes the escaper: positioned just after an
/// opening quote, on the escape of `x` followed by the closing quote and
/// anything after it, it returns exactly `x` and stops just past the
/// closing quote.
proof fn lemma_str_body_round(s: Seq<char>, i: int, x: Seq<char>, rest: Seq<char>)
    requires
        0 <= i <= s.len(),
        s.subrange(i, s.len() as int) == escaped(x) + seq!['"'] + rest,
    ensures
        sp_str_body(s, i) == Some((x, i + escaped(x).len() + 1)),
    decreases x.len(),
{
    let tail = s.subrange(i, s.len() as int);
    assert(tail.len() == escaped(x).len() + 1 + rest.len());
    assert(i < s.len());
    if x.len() == 0 {
        assert(escaped(x) == Seq::<char>::empty());
        assert(tail[0] == '"');
        assert(s[i] == tail[0]);
        assert(sp_str_body(s, i) == Some((Seq::<char>::empty(), i + 1)));
        assert(x =~= Seq::<char>::empty());
    } else {
        let c = x[0];
        lemma_escaped_head(x);
        let e = esc_char(c);
        let x1 = x.drop_first();
        assert(escaped(x) == e + escaped(x1));
        assert(tail[0] == e[0]);
        assert(s[i] == tail[0]);
        let i1 = i + e.len();
        assert(s.subrange(i1, s.len() as int) =~= escaped(x1) + seq!['"'] + rest) by {
            assert forall|k: int| 0 <= k < s.len() - i1 implies s.subrange(i1, s.len() as int)[k]
                == (escaped(x1) + seq!['"'] + rest)[k] by {
                assert(s.subrange(i1, s.len() as int)[k] == tail[k + e.len()]);
                assert(tail[k + e.len()] == (escaped(x) + seq!['"'] + rest)[k + e.len()]);
            }
        }
        lemma_str_body_round(s, i1, x1, rest);
        if c == '"' || c == '\\' || c == '\n' || c == '\r' || c == '\t' {
            assert(e.len() == 2);
            assert(e[0] == '\\');
            assert(s[i] == '\\');
            assert(tail[1] == e[1]);
            assert(s[i + 1] == tail[1]);
            assert(s[i + 1] != 'u');
            assert(unescape(s[i + 1]) == Some(c));
            assert(i + 2 <= s.len());
            assert(sp_str_body(s, i) == Some((seq![c] + x1, i1 + escaped(x1).len() + 1)));
            assert(seq![c] + x1 =~= x);
            assert(i1 + escaped(x1).len() + 1 == i + escaped(x).len() + 1);
        } else if (c as u32) < 32 {
            let code = c as u32 as int;
            assert(e.len() == 6);
            assert(e[0] == '\\' && e[1] == 'u' && e[2] == '0' && e[3] == '0');
            assert(e[4] == hex_digit((code / 16) as nat));
            assert(e[5] == hex_digit((code % 16) as nat));
            assert(s[i] == '\\');
            assert(s[i + 1] == tail[1] && tail[1] == e[1]);
            assert(s[i + 2] == tail[2] && tail[2] == e[2]);
            assert(s[i + 3] == tail[3] && tail[3] == e[3]);
            assert(s[i + 4] == tail[4] && tail[4] == e[4]);
            assert(s[i + 5] == tail[5] && tail[5] == e[5]);
            assert(i + 6 <= s.len());
            assert(hex_val('0') == Some(0int));
            assert(hex_val(e[4]) == Some(code / 16));
            assert(hex_val(e[5]) == Some(code % 16));
            assert(0 * 4096 + 0 * 256 + (code / 16) * 16 + code % 16 == code);
            assert(code < 32);
            assert(sp_u_escape(s, i + 2) == Some((code as u32) as char));
            assert(((code as u32) as char) as u32 == c as u32);
            lemma_char_code_inj((code as u32) as char, c);
            assert((code as u32) as char == c);
            assert(sp_str_body(s, i) == Some((seq![c] + x1, i1 + escaped(x1).len() + 1)));
            assert(seq![c] + x1 =~= x);
            assert(i1 + escaped(x1).len() + 1 == i + escaped(x).len() + 1);
        } else {
            assert(e =~= seq![c]);
            assert(s[i] == c);
            assert(c != '"' && c != '\\');
            assert((c as u32) >= 32);
            assert(sp_str_body(s, i) == Some((seq![c] + x1, i1 + escaped(x1).len() + 1)));
            assert(seq![c] + x1 =~= x);
            assert(i1 + escaped(x1).len() + 1 == i + escaped(x).len() + 1);
        }
    }
}

/// String-literal round trip: wherever a text stands escaped between
/// quotes on the wire, the string grammar accepts it and yields exactly
/// that text, stopping just past the closing quote — for every text,
/// control characters included. The frame encoder writes every string
/// field this way, so each field an emitted frame carries is read back
/// verbatim by the grammar.
pub proof fn lemma_quoted_round(s: Seq<char>, i: int, x: Seq<char>, rest: Seq<char>)
    requires
        0 <= i <= s.len(),
        s.subrange(i, s.len() as int) == quoted(x) + rest,
    ensures
        sp_quoted(s, i) == Some((x, i + quoted(x).len())),
        i + quoted(x).len() <= s.len(),
        quoted(x).len() == escaped(x).len() + 2,
    {
    let tail = s.subrange(i, s.len() as int);
    assert(quoted(x).len() == escaped(x).len() + 2);
    assert(tail.len() == quoted(x).len() + rest.len());
    assert(quoted(x)[0] == '"');
    assert(tail[0] == (quoted(x) + rest)[0]);
    assert(s[i] == tail[0]);
    assert(s.subrange(i + 1, s.len() as int) =~= escaped(x) + seq!['"'] + rest) by {
        assert forall|k: int|
            0 <= k < s.len() - i - 1 implies s.subrange(i + 1, s.len() as int)[k] == (escaped(x)
            + seq!['"'] + rest)[k] by {
            assert(s.subrange(i + 1, s.len() as int)[k] == tail[k + 1]);
            assert(tail[k + 1] == (quoted(x) + rest)[k + 1]);
            assert(quoted(x) == seq!['"'] + (escaped(x) + seq!['"']));
        }
    }
    lemma_str_body_round(s, i + 1, x, rest);
}

/// One member step: a `message_type` member bound to a string, followed
/// by a comma.
proof fn lemma_step_message_type(s: Seq<char>, i: int, acc: FrameFields, a: int, t: Seq<char>, vend: int)
    requires
        sp_quoted(s, i) == Some(("message_type"@, a)),
        acc.message_type is None,
        sp_ws(s, a) == a,
        a < s.len(),
        s[a] == ':',
        sp_ws(s, a + 1) == a + 1,
        a + 1 <= s.len(),
        sp_quoted(s, a + 1) == Some((t, vend)),
        sp_ws(s, vend) == vend,
        vend < s.len(),
        s[vend] == ',',
        sp_ws(s, vend + 1) == vend + 1,
        vend + 1 <= s.len(),
        vend + 1 > i,
    ensures
        sp_members(s, i, acc) == sp_members(
            s,
            vend + 1,
            FrameFields {
                message_type: Some(t),
                message: acc.message,
                username: acc.username,
                users: acc.users,
            },
        ),
{
}

/// One member step: a `message` member bound to `null`, followed by a
/// comma.
proof fn lemma_step_message_null(s: Seq<char>, i: int, acc: FrameFields, a: int)
    requires
        sp_quoted(s, i) == Some(("message"@, a)),
        acc.message is None,
        sp_ws(s, a) == a,
        a < s.len(),
        s[a] == ':',
        sp_ws(s, a + 1) == a + 1,
        a + 1 < s.len(),
        s[a + 1] != '{',
        sp_lit(s, a + 1, "null"@) == Some(a + 5),
        sp_ws(s, a + 5) == a + 5,
        a + 5 < s.len(),
        s[a + 5] == ',',
        sp_ws(s, a + 6) == a + 6,
        a + 6 <= s.len(),
        a + 6 > i,
    ensures
        sp_members(s, i, acc) == sp_members(
            s,
            a + 6,
            FrameFields {
                message_type: acc.message_type,
                message: Some(None),
                username: acc.username,
                users: acc.users,
            },
        ),
{
    reveal_strlit("message");
    reveal_strlit("message_type");
    assert("message"@.len() == 7 && "message_type"@.len() == 12);
    assert("message"@ != "message_type"@);
    assert("null"@.len() == 4) by {
        reveal_strlit("null");
    }
}

/// One member step: a `username` member bound to a string, followed by a
/// comma.
proof fn lemma_step_username(s: Seq<char>, i: int, acc: FrameFields, a: int, n: Seq<char>, vend: int)
    requires
        sp_quoted(s, i) == Some(("username"@, a)),
        acc.username is None,
        sp_ws(s, a) == a,
        a < s.len(),
        s[a] == ':',
        sp_ws(s, a + 1) == a + 1,
        a + 1 < s.len(),
        s[a + 1] == '"',
        sp_quoted(s, a + 1) == Some((n, vend)),
        sp_ws(s, vend) == vend,
        vend < s.len(),
        s[vend] == ',',
        sp_ws(s, vend + 1) == vend + 1,
        vend + 1 <= s.len(),
        vend + 1 > i,
    ensures
        sp_members(s, i, acc) == sp_members(
            s,
            vend + 1,
            FrameFields {
                message_type: acc.message_type,
                message: acc.message,
                username: Some(Some(n)),
                users: acc.users,
            },
        ),
{
    reveal_strlit("username");
    reveal_strlit("message_type");
    reveal_strlit("message");
    assert("username"@.len() == 8 && "message_type"@.len() == 12 && "message"@.len() == 7);
    assert("username"@ != "message_type"@ && "username"@ != "message"@);
}

/// The last member step: a `users` member bound to `null`, closing the
/// object.
proof fn lemma_step_users_null_end(s: Seq<char>, i: int, acc: FrameFields, a: int)
    requires
        sp_quoted(s, i) == Some(("users"@, a)),
        acc.users is None,
        sp_ws(s, a) == a,
        a < s.len(),
        s[a] == ':',
        sp_ws(s, a + 1) == a + 1,
        a + 1 < s.len(),
        s[a + 1] != '[',
        sp_lit(s, a + 1, "null"@) == Some(a + 5),
        sp_ws(s, a + 5) == a + 5,
        a + 5 < s.len(),
        s[a + 5] == '}',
    ensures
        sp_members(s, i, acc) == Some(
            (
                FrameFields {
                    message_type: acc.message_type,
                    message: acc.message,
                    username: acc.username,
                    users: Some(None),
                },
                a + 6,
            ),
        ),
{
    reveal_strlit("users");
    reveal_strlit("message_type");
    reveal_strlit("message");
    reveal_strlit("username");
    assert("users"@.len() == 5 && "message_type"@.len() == 12 && "message"@.len() == 7
        && "username"@.len() == 8);
    assert("users"@ != "message_type"@ && "users"@ != "message"@ && "users"@ != "username"@);
    assert("null"@.len() == 4) by {
        reveal_strlit("null");
    }
}

/// Escaping text free of quotes, backslashes and control characters
/// leaves it unchanged.
proof fn lemma_escaped_plain(x: Seq<char>)
    requires
        forall|k: int|
            0 <= k < x.len() ==> (#[trigger] x[k]) != '"' && x[k] != '\\' && (x[k] as u32) >= 32,
    ensures
        escaped(x) == x,
    decreases x.len(),
{
    if x.len() == 0 {
        assert(escaped(x) =~= x);
    } else {
        lemma_escaped_plain(x.drop_last());
        assert(x.last() == x[x.len() - 1]);
        assert(esc_char(x.last()) == seq![x.last()]);
        assert(escaped(x) =~= x);
    }
}

/// Drops a known prefix from a suffix decomposition of `s`.
proof fn lemma_tail_shift(s: Seq<char>, i: int, a: Seq<char>, rest: Seq<char>)
    requires
        0 <= i,
        i + a.len() <= s.len(),
        s.subrange(i, s.len() as int) == a + rest,
    ensures
        s.subrange(i + a.len(), s.len() as int) == rest,
        forall|k: int| 0 <= k < a.len() ==> #[trigger] s[i + k] == a[k],
{
    assert forall|k: int| 0 <= k < a.len() implies #[trigger] s[i + k] == a[k] by {
        assert(s.subrange(i, s.len() as int)[k] == s[i + k]);
        assert((a + rest)[k] == a[k]);
    }
    assert(s.subrange(i, s.len() as int).len() == a.len() + rest.len());
    assert(s.subrange(i + a.len(), s.len() as int) =~= rest) by {
        assert forall|k: int|
            0 <= k < s.len() - i - a.len() implies s.subrange(i + a.len(), s.len() as int)[k]
            == rest[k] by {
            assert(0 <= k + a.len() < s.len() - i);
            assert(s.subrange(i + a.len(), s.len() as int)[k] == s[i + a.len() + k]);
            assert(s.subrange(i, s.len() as int)[k + a.len()] == s[i + (k + a.len())]);
            assert(i + (k + a.len()) == i + a.len() + k);
            assert((a + rest)[k + a.len()] == rest[k]);
        }
    }
}

/// A canonical `UsernameChange` frame, cut into its lexical pieces.
#[verifier::rlimit(100)]
proof fn lemma_uc_shape(n: Seq<char>)
    ensures
        encode_spec(EnvelopeModel::UsernameChange(n)) == seq!['{'] + quoted("message_type"@)
            + seq![':'] + quoted("UsernameChange"@) + seq![','] + quoted("message"@) + seq![':']
            + "null"@ + seq![','] + quoted("username"@) + seq![':'] + quoted(n) + seq![',']
            + quoted("users"@) + seq![':'] + "null"@ + seq!['}'],
{
    let e = EnvelopeModel::UsernameChange(n);
    let s = encode_spec(e);
    reveal_strlit("message_type");
    reveal_strlit("UsernameChange");
    reveal_strlit("message");
    reveal_strlit("username");
    reveal_strlit("users");
    reveal_strlit("null");
    reveal_strlit("{\"message_type\":\"UsernameChange\",\"message\":null,\"username\":");
    reveal_strlit(",\"users\":null}");
    lemma_escaped_plain("message_type"@);
    lemma_escaped_plain("UsernameChange"@);
    lemma_escaped_plain("message"@);
    lemma_escaped_plain("username"@);
    lemma_escaped_plain("users"@);
    let ucp = "{\"message_type\":\"UsernameChange\",\"message\":null,\"username\":"@;
    let ucs = ",\"users\":null}"@;
    assert(s == ucp + quoted(n) + ucs);
    assert(ucp =~= seq!['{'] + quoted("message_type"@) + seq![':'] + quoted("UsernameChange"@)
        + seq![','] + quoted("message"@) + seq![':'] + "null"@ + seq![','] + quoted("username"@)
        + seq![':']);
    assert(ucs =~= seq![','] + quoted("users"@) + seq![':'] + "null"@ + seq!['}']);
    assert(s =~= seq!['{'] + quoted("message_type"@) + seq![':'] + quoted("UsernameChange"@)
        + seq![','] + quoted("message"@) + seq![':'] + "null"@ + seq![','] + quoted("username"@)
        + seq![':'] + quoted(n) + seq![','] + quoted("users"@) + seq![':'] + "null"@
        + seq!['}']);
}

/// Positional facts of a canonical `UsernameChange` frame, first half
/// (the `message_type` and `message` members).
#[verifier::rlimit(100)]
proof fn lemma_uc_walk_a(n: Seq<char>)
    ensures
        encode_spec(EnvelopeModel::UsernameChange(n)).len() > 48,
        encode_spec(EnvelopeModel::UsernameChange(n))[0] == '{',
        encode_spec(EnvelopeModel::UsernameChange(n))[1] == '"',
        sp_quoted(encode_spec(EnvelopeModel::UsernameChange(n)), 1) == Some(("message_type"@, 15int)),
        encode_spec(EnvelopeModel::UsernameChange(n))[15] == ':',
        sp_quoted(encode_spec(EnvelopeModel::UsernameChange(n)), 16) == Some(
            ("UsernameChange"@, 32int),
        ),
        encode_spec(EnvelopeModel::UsernameChange(n))[32] == ',',
        sp_quoted(encode_spec(EnvelopeModel::UsernameChange(n)), 33) == Some(("message"@, 42int)),
        encode_spec(EnvelopeModel::UsernameChange(n))[42] == ':',
        sp_lit(encode_spec(EnvelopeModel::UsernameChange(n)), 43, "null"@) == Some(47int),
        encode_spec(EnvelopeModel::UsernameChange(n))[43] == 'n',
        encode_spec(EnvelopeModel::UsernameChange(n))[47] == ',',
        encode_spec(EnvelopeModel::UsernameChange(n))[48] == '"',
{
    let e = EnvelopeModel::UsernameChange(n);
    let s = encode_spec(e);
    let k_mt = "message_type"@;
    let t_uc = "UsernameChange"@;
    let k_msg = "message"@;
    let k_un = "username"@;
    let k_us = "users"@;
    let nul = "null"@;
    reveal_strlit("message_type");
    reveal_strlit("UsernameChange");
    reveal_strlit("message");
    reveal_strlit("username");
    reveal_strlit("users");
    reveal_strlit("null");
    lemma_escaped_plain(k_mt);
    lemma_escaped_plain(t_uc);
    lemma_escaped_plain(k_msg);
    let r16 = seq!['}'];
    let r15 = nul + r16;
    let r14 = seq![':'] + r15;
    let r13 = quoted(k_us) + r14;
    let r12 = seq![','] + r13;
    let r11 = quoted(n) + r12;
    let r10 = seq![':'] + r11;
    let r9 = quoted(k_un) + r10;
    let r8 = seq![','] + r9;
    let r7 = nul + r8;
    let r6 = seq![':'] + r7;
    let r5 = quoted(k_msg) + r6;
    let r4 = seq![','] + r5;
    let r3 = quoted(t_uc) + r4;
    let r2 = seq![':'] + r3;
    let r1 = quoted(k_mt) + r2;
    let r0 = seq!['{'] + r1;
    lemma_uc_shape(n);
    assert(s =~= r0);
    assert(s.subrange(0, s.len() as int) =~= r0);
    lemma_tail_shift(s, 0, seq!['{'], r1);
    lemma_quoted_round(s, 1, k_mt, r2);
    lemma_tail_shift(s, 1, quoted(k_mt), r2);
    lemma_tail_shift(s, 15, seq![':'], r3);
    lemma_quoted_round(s, 16, t_uc, r4);
    lemma_tail_shift(s, 16, quoted(t_uc), r4);
    lemma_tail_shift(s, 32, seq![','], r5);
    lemma_quoted_round(s, 33, k_msg, r6);
    lemma_tail_shift(s, 33, quoted(k_msg), r6);
    lemma_tail_shift(s, 42, seq![':'], r7);
    lemma_tail_shift(s, 43, nul, r8);
    assert(s.subrange(43, 47) =~= nul) by {
        assert forall|k: int| 0 <= k < 4 implies #[trigger] s.subrange(43, 47)[k] == nul[k] by {
            assert(s[43 + k] == nul[k]);
            assert(s.subrange(43, 47)[k] == s[43 + k]);
        }
    }
    assert(sp_lit(s, 43, nul) == Some(47int));
    lemma_tail_shift(s, 47, seq![','], r9);
    assert(quoted(k_un)[0] == '"');
    assert(s[48] == '"');
}

/// Positional facts of a canonical `UsernameChange` frame, second half
/// (the `username` and `users` members).
#[verifier::rlimit(100)]
proof fn lemma_uc_walk_b(n: Seq<char>)
    ensures
        sp_quoted(encode_spec(EnvelopeModel::UsernameChange(n)), 48) == Some(("username"@, 58int)),
        encode_spec(EnvelopeModel::UsernameChange(n))[58] == ':',
        encode_spec(EnvelopeModel::UsernameChange(n))[59] == '"',
        sp_quoted(encode_spec(EnvelopeModel::UsernameChange(n)), 59) == Some(
            (n, 61 + escaped(n).len() as int),
        ),
        encode_spec(EnvelopeModel::UsernameChange(n))[61 + escaped(n).len() as int] == ',',
        sp_quoted(encode_spec(EnvelopeModel::UsernameChange(n)), 62 + escaped(n).len() as int) == Some(
            ("users"@, 69 + escaped(n).len() as int),
        ),
        encode_spec(EnvelopeModel::UsernameChange(n))[69 + escaped(n).len() as int] == ':',
        encode_spec(EnvelopeModel::UsernameChange(n))[70 + escaped(n).len() as int] == 'n',
        sp_lit(encode_spec(EnvelopeModel::UsernameChange(n)), 70 + escaped(n).len() as int, "null"@)
            == Some(74 + escaped(n).len() as int),
        encode_spec(EnvelopeModel::UsernameChange(n))[74 + escaped(n).len() as int] == '}',
        encode_spec(EnvelopeModel::UsernameChange(n)).len() == 75 + escaped(n).len(),
{
    let e = EnvelopeModel::UsernameChange(n);
    let s = encode_spec(e);
    let k_mt = "message_type"@;
    let t_uc = "UsernameChange"@;
    let k_msg = "message"@;
    let k_un = "username"@;
    let k_us = "users"@;
    let nul = "null"@;
    reveal_strlit("message_type");
    reveal_strlit("UsernameChange");
    reveal_strlit("message");
    reveal_strlit("username");
    reveal_strlit("users");
    reveal_strlit("null");
    lemma_escaped_plain(k_mt);
    lemma_escaped_plain(t_uc);
    lemma_escaped_plain(k_msg);
    lemma_escaped_plain(k_un);
    lemma_escaped_plain(k_us);
    let r16 = seq!['}'];
    let r15 = nul + r16;
    let r14 = seq![':'] + r15;
    let r13 = quoted(k_us) + r14;
    let r12 = seq![','] + r13;
    let r11 = quoted(n) + r12;
    let r10 = seq![':'] + r11;
    let r9 = quoted(k_un) + r10;
    let pre = seq!['{'] + quoted(k_mt) + seq![':'] + quoted(t_uc) + seq![','] + quoted(k_msg)
        + seq![':'] + nul + seq![','];
    lemma_uc_shape(n);
    assert(pre.len() == 48);
    assert(s.subrange(0, s.len() as int) =~= pre + r9);
    lemma_tail_shift(s, 0, pre, r9);
    lemma_quoted_round(s, 48, k_un, r10);
    lemma_tail_shift(s, 48, quoted(k_un), r10);
    lemma_tail_shift(s, 58, seq![':'], r11);
    assert(quoted(n)[0] == '"');
    assert(s[59] == '"');
    lemma_quoted_round(s, 59, n, r12);
    lemma_tail_shift(s, 59, quoted(n), r12);
    let b3: int = 61 + escaped(n).len() as int;
    lemma_tail_shift(s, b3, seq![','], r13);
    lemma_quoted_round(s, b3 + 1, k_us, r14);
    lemma_tail_shift(s, b3 + 1, quoted(k_us), r14);
    lemma_tail_shift(s, b3 + 8, seq![':'], r15);
    lemma_tail_shift(s, b3 + 9, nul, r16);
    assert(s.subrange(b3 + 9, b3 + 13) =~= nul) by {
        assert forall|k: int| 0 <= k < 4 implies #[trigger] s.subrange(b3 + 9, b3 + 13)[k]
            == nul[k] by {
            assert(s[b3 + 9 + k] == nul[k]);
            assert(s.subrange(b3 + 9, b3 + 13)[k] == s[b3 + 9 + k]);
        }
    }
    assert(sp_lit(s, b3 + 9, nul) == Some(b3 + 13));
    lemma_tail_shift(s, b3 + 13, seq!['}'], Seq::<char>::empty());
    assert(r16 =~= seq!['}'] + Seq::<char>::empty());
    assert(s[b3 + 13] == '}');
    assert(s.len() == b3 + 14);
}

/// The member walk of a canonical `UsernameChange` frame.
#[verifier::rlimit(100)]
proof fn lemma_uc_walk(n: Seq<char>)
    ensures
        encode_spec(EnvelopeModel::UsernameChange(n)).len() > 1,
        encode_spec(EnvelopeModel::UsernameChange(n))[0] == '{',
        encode_spec(EnvelopeModel::UsernameChange(n))[1] == '"',
        sp_members(encode_spec(EnvelopeModel::UsernameChange(n)), 1, empty_fields()) == Some(
            (
                FrameFields {
                    message_type: Some("UsernameChange"@),
                    message: Some(None),
                    username: Some(Some(n)),
                    users: Some(None),
                },
                encode_spec(EnvelopeModel::UsernameChange(n)).len() as int,
            ),
        ),
{
    let e = EnvelopeModel::UsernameChange(n);
    let s = encode_spec(e);
    lemma_uc_walk_a(n);
    lemma_uc_walk_b(n);
    let t_uc = "UsernameChange"@;
    assert(!is_ws('"') && !is_ws(':') && !is_ws(',') && !is_ws('{') && !is_ws('}') && !is_ws(
        'n',
    ));
    let acc0 = empty_fields();
    let acc1 = FrameFields { message_type: Some(t_uc), message: None, username: None, users: None };
    let acc2 = FrameFields {
        message_type: Some(t_uc),
        message: Some(None),
        username: None,
        users: None,
    };
    let acc3 = FrameFields {
        message_type: Some(t_uc),
        message: Some(None),
        username: Some(Some(n)),
        users: None,
    };
    assert(sp_ws(s, 15) == 15 && sp_ws(s, 16) == 16 && sp_ws(s, 32) == 32 && sp_ws(s, 33) == 33);
    assert(sp_ws(s, 42) == 42 && sp_ws(s, 43) == 43 && sp_ws(s, 47) == 47 && sp_ws(s, 48) == 48);
    let b3: int = 61 + escaped(n).len() as int;
    assert(sp_ws(s, 58) == 58 && sp_ws(s, 59) == 59 && sp_ws(s, b3) == b3 && sp_ws(s, b3 + 1)
        == b3 + 1);
    assert(sp_ws(s, b3 + 8) == b3 + 8 && sp_ws(s, b3 + 9) == b3 + 9 && sp_ws(s, b3 + 13) == b3
        + 13);
    lemma_step_message_type(s, 1, acc0, 15, t_uc, 32);
    lemma_step_message_null(s, 33, acc1, 42);
    lemma_step_username(s, 48, acc2, 58, n, b3);
    lemma_step_users_null_end(s, b3 + 1, acc3, b3 + 8);
}

/// Codec round trip, `UsernameChange` case: the frame the encoder emits
/// for a rename decodes back to exactly that rename.
#[verifier::rlimit(100)]
pub proof fn lemma_round_username_change(n: Seq<char>)
    ensures
        decode_spec(encode_spec(EnvelopeModel::UsernameChange(n))) == Some(
            EnvelopeModel::UsernameChange(n),
        ),
{
    let e = EnvelopeModel::UsernameChange(n);
    let s = encode_spec(e);
    lemma_uc_walk(n);
    let t_uc = "UsernameChange"@;
    reveal_strlit("UsernameChange");
    reveal_strlit("NewMessage");
    let acc4 = FrameFields {
        message_type: Some(t_uc),
        message: Some(None),
        username: Some(Some(n)),
        users: Some(None),
    };
    assert(!is_ws('{') && !is_ws('"'));
    assert(sp_ws(s, 0) == 0);
    assert(sp_ws(s, 1) == 1);
    assert(sp_ws(s, s.len() as int) == s.len());
    assert(t_uc.len() == 14 && "NewMessage"@.len() == 10);
    assert(t_uc != "NewMessage"@);
    assert(finalize(acc4) == Some(e));
    assert(decode_spec(s) == Some(e));
}

} // verus!
