//! The persisted text format: records are kept on disk as a
//! pretty-printed JSON array. This module renders a collection to that
//! text and reads it back; the file itself is read and written by the
//! surrounding application.
use vstd::prelude::*;

use crate::data::{status_label, storable, JobAppView, JobApplication, JobStatus};
use crate::text::{chars_of, string_of_chars};

verus! {

/// Why loading or saving failed.
#[derive(Debug)]
pub enum StorageError {
    /// The file could not be read or written.
    Io(String),
    /// The file could not be opened.
    FileOpen(String),
    /// The file could not be created.
    FileCreate(String),
    /// The file's content is not the expected record array.
    ParseError,
    /// The backup copy could not be made; never fatal.
    BackupError,
}

/// The hexadecimal digit for a value below sixteen.
pub open spec fn hex_digit(n: int) -> char {
    if n == 0 {
        '0'
    } else if n == 1 {
        '1'
    } else if n == 2 {
        '2'
    } else if n == 3 {
        '3'
    } else if n == 4 {
        '4'
    } else if n == 5 {
        '5'
    } else if n == 6 {
        '6'
    } else if n == 7 {
        '7'
    } else if n == 8 {
        '8'
    } else if n == 9 {
        '9'
    } else if n == 10 {
        'a'
    } else if n == 11 {
        'b'
    } else if n == 12 {
        'c'
    } else if n == 13 {
        'd'
    } else if n == 14 {
        'e'
    } else {
        'f'
    }
}

/// How one character is written inside a JSON string: quote and backslash
/// escaped, the common control characters by their short escapes, the
/// rest of the control characters as `\u00XX`, and everything else
/// verbatim.
pub open spec fn esc_char(c: char) -> Seq<char> {
    if c == '"' {
        seq!['\\', '"']
    } else if c == '\\' {
        seq!['\\', '\\']
    } else if c == '\u{8}' {
        seq!['\\', 'b']
    } else if c == '\t' {
        seq!['\\', 't']
    } else if c == '\n' {
        seq!['\\', 'n']
    } else if c == '\u{c}' {
        seq!['\\', 'f']
    } else if c == '\r' {
        seq!['\\', 'r']
    } else if (c as u32) < 0x20 {
        seq!['\\', 'u', '0', '0', hex_digit((c as u32) as int / 16), hex_digit((c as u32) as int % 16)]
    } else {
        seq![c]
    }
}

/// A whole text, escaped for a JSON string.
pub open spec fn json_escape(s: Seq<char>) -> Seq<char>
    decreases s.len(),
{
    if s.len() == 0 {
        Seq::empty()
    } else {
        esc_char(s[0]) + json_escape(s.drop_first())
    }
}

/// A JSON string: the escaped text between quotes.
#[verifier::opaque]
pub open spec fn quoted(s: Seq<char>) -> Seq<char> {
    seq!['"'] + (json_escape(s) + seq!['"'])
}

/// A JSON string or `null`, for the optional fields.
#[verifier::opaque]
pub open spec fn nullable(o: Option<Seq<char>>) -> Seq<char> {
    match o {
        Some(s) => quoted(s),
        None => seq!['n', 'u', 'l', 'l'],
    }
}

/// A JSON object key: the key text between quotes; keys hold nothing
/// that needs escaping.
#[verifier::opaque]
pub open spec fn qkey(key: Seq<char>) -> Seq<char> {
    seq!['"'] + (key + seq!['"'])
}

/// A member line from its key's opening quote on: `"key": value`.
#[verifier::opaque]
pub open spec fn member_tail(key: Seq<char>, val: Seq<char>) -> Seq<char> {
    qkey(key) + (seq![':', ' '] + val)
}

/// One `"key": value` member line, indented under the record's braces.
#[verifier::opaque]
pub open spec fn member(key: Seq<char>, val: Seq<char>) -> Seq<char> {
    seq![' ', ' ', ' ', ' '] + member_tail(key, val)
}

#[verifier::opaque]
pub open spec fn key_company() -> Seq<char> {
    seq!['c', 'o', 'm', 'p', 'a', 'n', 'y']
}

#[verifier::opaque]
pub open spec fn key_position() -> Seq<char> {
    seq!['p', 'o', 's', 'i', 't', 'i', 'o', 'n']
}

#[verifier::opaque]
pub open spec fn key_date_applied() -> Seq<char> {
    seq!['d', 'a', 't', 'e', '_', 'a', 'p', 'p', 'l', 'i', 'e', 'd']
}

#[verifier::opaque]
pub open spec fn key_status() -> Seq<char> {
    seq!['s', 't', 'a', 't', 'u', 's']
}

#[verifier::opaque]
pub open spec fn key_notes() -> Seq<char> {
    seq!['n', 'o', 't', 'e', 's']
}

#[verifier::opaque]
pub open spec fn key_url() -> Seq<char> {
    seq!['u', 'r', 'l']
}

#[verifier::opaque]
pub open spec fn key_last_updated() -> Seq<char> {
    seq!['l', 'a', 's', 't', '_', 'u', 'p', 'd', 'a', 't', 'e', 'd']
}

/// The closing of a record object.
#[verifier::opaque]
pub open spec fn record_close() -> Seq<char> {
    seq!['\n', ' ', ' ', '}']
}

/// The record text from its `last_updated` member on.
#[verifier::opaque]
pub open spec fn record_from_last_updated(r: JobAppView) -> Seq<char> {
    member(key_last_updated(), nullable(r.last_updated)) + record_close()
}

/// The record text from its `url` member on.
#[verifier::opaque]
pub open spec fn record_from_url(r: JobAppView) -> Seq<char> {
    member(key_url(), nullable(r.url)) + (seq![',', '\n'] + record_from_last_updated(r))
}

/// The record text from its `notes` member on.
#[verifier::opaque]
pub open spec fn record_from_notes(r: JobAppView) -> Seq<char> {
    member(key_notes(), quoted(r.notes)) + (seq![',', '\n'] + record_from_url(r))
}

/// The record text from its `status` member on.
#[verifier::opaque]
pub open spec fn record_from_status(r: JobAppView) -> Seq<char> {
    member(key_status(), quoted(status_label(r.status))) + (seq![',', '\n'] + record_from_notes(r))
}

/// The record text from its `date_applied` member on.
#[verifier::opaque]
pub open spec fn record_from_date(r: JobAppView) -> Seq<char> {
    member(key_date_applied(), quoted(r.date_applied)) + (seq![',', '\n'] + record_from_status(r))
}

/// The record text from its `position` member on.
#[verifier::opaque]
pub open spec fn record_from_position(r: JobAppView) -> Seq<char> {
    member(key_position(), quoted(r.position)) + (seq![',', '\n'] + record_from_date(r))
}

/// The record text from its first member on.
#[verifier::opaque]
pub open spec fn record_from_company(r: JobAppView) -> Seq<char> {
    member(key_company(), quoted(r.company)) + (seq![',', '\n'] + record_from_position(r))
}

/// One record as a JSON object, its members in the tracker's fixed order.
#[verifier::opaque]
pub open spec fn encode_record(r: JobAppView) -> Seq<char> {
    seq![' ', ' ', '{', '\n'] + record_from_company(r)
}

/// The first `n` records, each followed by its separator: a comma between
/// records, a bare newline after the last one of the whole collection.
pub open spec fn encode_records_upto(jobs: Seq<JobAppView>, n: int) -> Seq<char>
    decreases n,
{
    if n <= 0 {
        Seq::empty()
    } else {
        encode_records_upto(jobs, n - 1) + encode_record(jobs[n - 1]) + (if n < jobs.len() {
            seq![',', '\n']
        } else {
            seq!['\n']
        })
    }
}

/// The whole collection as the persisted pretty-printed JSON array.
pub open spec fn encode_jobs_text(jobs: Seq<JobAppView>) -> Seq<char> {
    if jobs.len() == 0 {
        seq!['[', ']']
    } else {
        seq!['[', '\n'] + encode_records_upto(jobs, jobs.len() as int) + seq![']']
    }
}

/// Append the digit pair of a control character's code.
fn push_hex_pair(out: &mut Vec<char>, n: u32)
    requires
        n < 0x20,
    ensures
        final(out)@ == old(out)@ + seq![
            '0',
            '0',
            hex_digit(n as int / 16),
            hex_digit(n as int % 16),
        ],
{
    out.push('0');
    out.push('0');
    if n / 16 == 0 {
        out.push('0');
    } else {
        out.push('1');
    }
    let low: u32 = n % 16;
    if low == 0 {
        out.push('0');
    } else if low == 1 {
        out.push('1');
    } else if low == 2 {
        out.push('2');
    } else if low == 3 {
        out.push('3');
    } else if low == 4 {
        out.push('4');
    } else if low == 5 {
        out.push('5');
    } else if low == 6 {
        out.push('6');
    } else if low == 7 {
        out.push('7');
    } else if low == 8 {
        out.push('8');
    } else if low == 9 {
        out.push('9');
    } else if low == 10 {
        out.push('a');
    } else if low == 11 {
        out.push('b');
    } else if low == 12 {
        out.push('c');
    } else if low == 13 {
        out.push('d');
    } else if low == 14 {
        out.push('e');
    } else {
        out.push('f');
    }
    proof {
        assert(final(out)@ =~= old(out)@ + seq![
            '0',
            '0',
            hex_digit(n as int / 16),
            hex_digit(n as int % 16),
        ]);
    }
}

/// `json_escape` grows one character at a time.
proof fn lemma_json_escape_snoc(s: Seq<char>, c: char)
    ensures
        json_escape(s.push(c)) == json_escape(s) + esc_char(c),
    decreases s.len(),
{
    if s.len() == 0 {
        assert(s.push(c).drop_first() =~= Seq::<char>::empty());
        assert(s =~= Seq::<char>::empty());
        assert(json_escape(s.push(c)) =~= json_escape(s) + esc_char(c));
    } else {
        assert(s.push(c).drop_first() =~= s.drop_first().push(c));
        lemma_json_escape_snoc(s.drop_first(), c);
        assert(json_escape(s.push(c)) =~= json_escape(s) + esc_char(c));
    }
}

/// Append the text of a field, escaped for the inside of a JSON string.
fn push_escaped(out: &mut Vec<char>, s: &str)
    ensures
        final(out)@ == old(out)@ + json_escape(s@),
{
    let cs = chars_of(s);
    let mut i: usize = 0;
    proof {
        assert(s@.take(0) =~= Seq::<char>::empty());
    }
    while i < cs.len()
        invariant
            i <= cs.len(),
            cs@ == s@,
            out@ == old(out)@ + json_escape(s@.take(i as int)),
        decreases cs.len() - i,
    {
        let c = cs[i];
        if c == '"' {
            out.push('\\');
            out.push('"');
        } else if c == '\\' {
            out.push('\\');
            out.push('\\');
        } else if c == '\u{8}' {
            out.push('\\');
            out.push('b');
        } else if c == '\t' {
            out.push('\\');
            out.push('t');
        } else if c == '\n' {
            out.push('\\');
            out.push('n');
        } else if c == '\u{c}' {
            out.push('\\');
            out.push('f');
        } else if c == '\r' {
            out.push('\\');
            out.push('r');
        } else if (c as u32) < 0x20 {
            out.push('\\');
            out.push('u');
            push_hex_pair(out, c as u32);
        } else {
            out.push(c);
        }
        proof {
            lemma_json_escape_snoc(s@.take(i as int), c);
            assert(s@.take(i + 1) =~= s@.take(i as int).push(c));
            assert(out@ =~= old(out)@ + json_escape(s@.take(i + 1)));
        }
        i += 1;
    }
    proof {
        assert(s@.take(s@.len() as int) =~= s@);
    }
}

/// Append a complete JSON string.
fn push_quoted(out: &mut Vec<char>, s: &str)
    ensures
        final(out)@ == old(out)@ + quoted(s@),
{
    out.push('"');
    push_escaped(out, s);
    out.push('"');
    proof {
        reveal(quoted);
        assert(final(out)@ =~= old(out)@ + quoted(s@));
    }
}

/// Append one `"key": value` member line up to the value.
fn push_member_head(out: &mut Vec<char>, key: &str)
    ensures
        final(out)@ == old(out)@ + seq![' ', ' ', ' ', ' ', '"'] + key@ + seq!['"', ':', ' '],
{
    out.push(' ');
    out.push(' ');
    out.push(' ');
    out.push(' ');
    out.push('"');
    let kc = chars_of(key);
    let mut i: usize = 0;
    while i < kc.len()
        invariant
            i <= kc.len(),
            kc@ == key@,
            out@ == old(out)@ + seq![' ', ' ', ' ', ' ', '"'] + key@.take(i as int),
        decreases kc.len() - i,
    {
        out.push(kc[i]);
        proof {
            assert(key@.take(i + 1) =~= key@.take(i as int).push(key@[i as int]));
            assert(out@ =~= old(out)@ + seq![' ', ' ', ' ', ' ', '"'] + key@.take(i + 1));
        }
        i += 1;
    }
    out.push('"');
    out.push(':');
    out.push(' ');
    proof {
        assert(key@.take(key@.len() as int) =~= key@);
        assert(final(out)@ =~= old(out)@ + seq![' ', ' ', ' ', ' ', '"'] + key@ + seq![
            '"',
            ':',
            ' ',
        ]);
    }
}

/// Append `null`.
fn push_null(out: &mut Vec<char>)
    ensures
        final(out)@ == old(out)@ + seq!['n', 'u', 'l', 'l'],
{
    out.push('n');
    out.push('u');
    out.push('l');
    out.push('l');
    proof {
        assert(final(out)@ =~= old(out)@ + seq!['n', 'u', 'l', 'l']);
    }
}

/// Append one `"key": value` member line followed by its separator.
fn push_member(out: &mut Vec<char>, key: &str, val: &str)
    ensures
        final(out)@ == old(out)@ + member(key@, quoted(val@)),
{
    push_member_head(out, key);
    push_quoted(out, val);
    proof {
        reveal(member);
        reveal(member_tail);
        reveal(qkey);
        assert(final(out)@ =~= old(out)@ + member(key@, quoted(val@)));
    }
}

/// Append one `"key": value` member line whose value may be `null`.
fn push_member_opt(out: &mut Vec<char>, key: &str, val: &Option<String>)
    ensures
        final(out)@ == old(out)@ + member(
            key@,
            nullable(
                match val {
                    Some(u) => Some(u@),
                    None => None,
                },
            ),
        ),
{
    push_member_head(out, key);
    match val {
        Some(u) => push_quoted(out, u.as_str()),
        None => push_null(out),
    }
    proof {
        reveal(member);
        reveal(member_tail);
        reveal(qkey);
        reveal(nullable);
        assert(final(out)@ =~= old(out)@ + member(
            key@,
            nullable(
                match val {
                    Some(u) => Some(u@),
                    None => None,
                },
            ),
        ));
    }
}

/// Append one whole record object.
#[verifier::rlimit(100)]
fn push_record(out: &mut Vec<char>, job: &JobApplication)
    ensures
        final(out)@ == old(out)@ + encode_record(job@),
{
    proof {
        reveal_strlit("company");
        reveal_strlit("position");
        reveal_strlit("date_applied");
        reveal_strlit("status");
        reveal_strlit("notes");
        reveal_strlit("url");
        reveal_strlit("last_updated");
        reveal(key_company);
        reveal(key_position);
        reveal(key_date_applied);
        reveal(key_status);
        reveal(key_notes);
        reveal(key_url);
        reveal(key_last_updated);
        assert("company"@ =~= key_company());
        assert("position"@ =~= key_position());
        assert("date_applied"@ =~= key_date_applied());
        assert("status"@ =~= key_status());
        assert("notes"@ =~= key_notes());
        assert("url"@ =~= key_url());
        assert("last_updated"@ =~= key_last_updated());
    }
    let ghost base = out@;
    out.push(' ');
    out.push(' ');
    out.push('{');
    out.push('\n');
    let ghost c1 = base + seq![' ', ' ', '{', '\n'];
    proof {
        assert(out@ =~= c1);
    }
    push_member(out, "company", job.company.as_str());
    let ghost c2 = c1 + member(key_company(), quoted(job@.company));
    out.push(',');
    out.push('\n');
    let ghost c3 = c2 + seq![',', '\n'];
    proof {
        assert(out@ =~= c3);
    }
    push_member(out, "position", job.position.as_str());
    let ghost c4 = c3 + member(key_position(), quoted(job@.position));
    out.push(',');
    out.push('\n');
    let ghost c5 = c4 + seq![',', '\n'];
    proof {
        assert(out@ =~= c5);
    }
    push_member(out, "date_applied", job.date_applied.as_str());
    let ghost c6 = c5 + member(key_date_applied(), quoted(job@.date_applied));
    out.push(',');
    out.push('\n');
    let ghost c7 = c6 + seq![',', '\n'];
    proof {
        assert(out@ =~= c7);
    }
    let label = job.status.name();
    push_member(out, "status", label.as_str());
    let ghost c8 = c7 + member(key_status(), quoted(status_label(job@.status)));
    out.push(',');
    out.push('\n');
    let ghost c9 = c8 + seq![',', '\n'];
    proof {
        assert(out@ =~= c9);
    }
    push_member(out, "notes", job.notes.as_str());
    let ghost c10 = c9 + member(key_notes(), quoted(job@.notes));
    out.push(',');
    out.push('\n');
    let ghost c11 = c10 + seq![',', '\n'];
    proof {
        assert(out@ =~= c11);
    }
    push_member_opt(out, "url", &job.url);
    let ghost c12 = c11 + member(key_url(), nullable(job@.url));
    out.push(',');
    out.push('\n');
    let ghost c13 = c12 + seq![',', '\n'];
    proof {
        assert(out@ =~= c13);
    }
    push_member_opt(out, "last_updated", &job.last_updated);
    let ghost c14 = c13 + member(key_last_updated(), nullable(job@.last_updated));
    out.push('\n');
    out.push(' ');
    out.push(' ');
    out.push('}');
    let ghost c15 = c14 + seq!['\n', ' ', ' ', '}'];
    proof {
        assert(out@ =~= c15);
        reveal(encode_record);
        reveal(record_from_company);
        reveal(record_from_position);
        reveal(record_from_date);
        reveal(record_from_status);
        reveal(record_from_notes);
        reveal(record_from_url);
        reveal(record_from_last_updated);
        reveal(record_close);
        let r = job@;
        let sep = seq![',', '\n'];
        assert(c15 == c13 + record_from_last_updated(r)) by {
            assert((c13 + member(key_last_updated(), nullable(r.last_updated))) + record_close()
                =~= c13 + record_from_last_updated(r));
        }
        assert(c15 == c11 + record_from_url(r)) by {
            assert(((c11 + member(key_url(), nullable(r.url))) + sep) + record_from_last_updated(r)
                =~= c11 + record_from_url(r));
        }
        assert(c15 == c9 + record_from_notes(r)) by {
            assert(((c9 + member(key_notes(), quoted(r.notes))) + sep) + record_from_url(r) =~= c9
                + record_from_notes(r));
        }
        assert(c15 == c7 + record_from_status(r)) by {
            assert(((c7 + member(key_status(), quoted(status_label(r.status)))) + sep)
                + record_from_notes(r) =~= c7 + record_from_status(r));
        }
        assert(c15 == c5 + record_from_date(r)) by {
            assert(((c5 + member(key_date_applied(), quoted(r.date_applied))) + sep)
                + record_from_status(r) =~= c5 + record_from_date(r));
        }
        assert(c15 == c3 + record_from_position(r)) by {
            assert(((c3 + member(key_position(), quoted(r.position))) + sep) + record_from_date(r)
                =~= c3 + record_from_position(r));
        }
        assert(c15 == c1 + record_from_company(r)) by {
            assert(((c1 + member(key_company(), quoted(r.company))) + sep) + record_from_position(r)
                =~= c1 + record_from_company(r));
        }
        assert(c15 == base + encode_record(r)) by {
            assert((base + seq![' ', ' ', '{', '\n']) + record_from_company(r) =~= base
                + encode_record(r));
        }
    }
}

/// Render the whole collection as the persisted JSON text. Only real
/// statuses are ever written: the `All` wildcard never reaches the disk.
pub fn encode_jobs(jobs: &Vec<JobApplication>) -> (r: String)
    requires
        all_storable(jobs.deep_view()),
    ensures
        r@ == encode_jobs_text(jobs.deep_view()),
{
    let mut out: Vec<char> = Vec::new();
    if jobs.len() == 0 {
        out.push('[');
        out.push(']');
        proof {
            assert(out@ =~= encode_jobs_text(jobs.deep_view()));
        }
        return string_of_chars(&out);
    }
    out.push('[');
    out.push('\n');
    let mut i: usize = 0;
    proof {
        assert(out@ =~= seq!['[', '\n'] + encode_records_upto(jobs.deep_view(), 0));
    }
    while i < jobs.len()
        invariant
            i <= jobs.len(),
            jobs@.len() > 0,
            out@ == seq!['[', '\n'] + encode_records_upto(jobs.deep_view(), i as int),
        decreases jobs.len() - i,
    {
        push_record(&mut out, &jobs[i]);
        if i + 1 < jobs.len() {
            out.push(',');
            out.push('\n');
        } else {
            out.push('\n');
        }
        proof {
            assert(out@ =~= seq!['[', '\n'] + encode_records_upto(jobs.deep_view(), i + 1));
        }
        i += 1;
    }
    out.push(']');
    proof {
        assert(out@ =~= encode_jobs_text(jobs.deep_view()));
    }
    string_of_chars(&out)
}

/// JSON insignificant whitespace.
pub open spec fn is_ws(c: char) -> bool {
    c == ' ' || c == '\n' || c == '\t' || c == '\r'
}

/// The first position at or after `i` that holds no whitespace.
pub open spec fn skip_ws(s: Seq<char>, i: int) -> int
    decreases s.len() - i,
{
    if i < 0 || i >= s.len() {
        i
    } else if is_ws(s[i]) {
        skip_ws(s, i + 1)
    } else {
        i
    }
}

/// Skipping whitespace passes exactly over a known run of it.
pub proof fn lemma_skip_ws_run(s: Seq<char>, i: int, n: int)
    requires
        0 <= i,
        0 <= n,
        i + n <= s.len(),
        forall|k: int| i <= k < i + n ==> is_ws(#[trigger] s[k]),
        i + n == s.len() || !is_ws(s[i + n]),
    ensures
        skip_ws(s, i) == i + n,
    decreases n,
{
    if n > 0 {
        lemma_skip_ws_run(s, i + 1, n - 1);
    }
}

/// The value of a hexadecimal digit, or a negative number for any other
/// character.
pub open spec fn hex_val(c: char) -> int {
    if '0' <= c && c <= '9' {
        c as int - '0' as int
    } else if 'a' <= c && c <= 'f' {
        10 + c as int - 'a' as int
    } else if 'A' <= c && c <= 'F' {
        10 + c as int - 'A' as int
    } else {
        -1
    }
}

/// The character a short escape stands for; quote, backslash and slash
/// stand for themselves.
pub open spec fn unescape_short(e: char) -> char {
    if e == 'b' {
        '\u{8}'
    } else if e == 'f' {
        '\u{c}'
    } else if e == 'n' {
        '\n'
    } else if e == 'r' {
        '\r'
    } else if e == 't' {
        '\t'
    } else {
        e
    }
}

/// Read a JSON string from after its opening quote to its closing quote:
/// the decoded text and the position after the closing quote. Escapes are
/// the short ones, and `\uXXXX` for a scalar value; surrogates and raw
/// control characters are refused.
pub open spec fn parse_string_body(s: Seq<char>, i: int) -> Option<(Seq<char>, int)>
    decreases s.len() - i,
{
    if i < 0 || i >= s.len() {
        None
    } else {
        let c = s[i];
        if c == '"' {
            Some((Seq::empty(), i + 1))
        } else if c == '\\' {
            if i + 2 > s.len() {
                None
            } else {
                let e = s[i + 1];
                if e == 'u' {
                    if i + 6 > s.len() {
                        None
                    } else if hex_val(s[i + 2]) >= 0 && hex_val(s[i + 3]) >= 0 && hex_val(
                        s[i + 4],
                    ) >= 0 && hex_val(s[i + 5]) >= 0 {
                        let code = hex_val(s[i + 2]) * 4096 + hex_val(s[i + 3]) * 256 + hex_val(
                            s[i + 4],
                        ) * 16 + hex_val(s[i + 5]);
                        if 0xD800 <= code <= 0xDFFF {
                            None
                        } else {
                            match parse_string_body(s, i + 6) {
                                Some((t, j)) => Some((seq![((code as u32) as char)] + t, j)),
                                None => None,
                            }
                        }
                    } else {
                        None
                    }
                } else if e == '"' || e == '\\' || e == '/' || e == 'b' || e == 'f' || e == 'n' || e
                    == 'r' || e == 't' {
                    match parse_string_body(s, i + 2) {
                        Some((t, j)) => Some((seq![unescape_short(e)] + t, j)),
                        None => None,
                    }
                } else {
                    None
                }
            }
        } else if (c as u32) < 0x20 {
            None
        } else {
            match parse_string_body(s, i + 1) {
                Some((t, j)) => Some((seq![c] + t, j)),
                None => None,
            }
        }
    }
}

/// A parse of a string body always moves forward and stays inside the
/// text.
pub proof fn lemma_parse_string_body_advances(s: Seq<char>, i: int)
    requires
        parse_string_body(s, i) is Some,
    ensures
        i < (parse_string_body(s, i)->0).1 <= s.len(),
    decreases s.len() - i,
{
    let c = s[i];
    if c == '"' {
    } else if c == '\\' {
        if s[i + 1] == 'u' {
            lemma_parse_string_body_advances(s, i + 6);
        } else {
            lemma_parse_string_body_advances(s, i + 2);
        }
    } else {
        lemma_parse_string_body_advances(s, i + 1);
    }
}

/// Read a complete JSON string, opening quote included.
pub open spec fn parse_string_at(s: Seq<char>, i: int) -> Option<(Seq<char>, int)> {
    if 0 <= i < s.len() && s[i] == '"' {
        parse_string_body(s, i + 1)
    } else {
        None
    }
}

/// Match an exact run of characters with no whitespace skipping.
pub open spec fn expect_lit(s: Seq<char>, i: int, lit: Seq<char>) -> Option<int> {
    if 0 <= i && i + lit.len() <= s.len() && s.subrange(i, i + lit.len()) == lit {
        Some(i + lit.len())
    } else {
        None
    }
}

/// Match one punctuation character after any whitespace.
pub open spec fn expect_token(s: Seq<char>, i: int, c: char) -> Option<int> {
    let j = skip_ws(s, i);
    if 0 <= j < s.len() && s[j] == c {
        Some(j + 1)
    } else {
        None
    }
}

/// Relies on `char::from_u32`: every value below the surrogate range, and
/// every value between the surrogates and 0x10FFFF, is a Unicode scalar,
/// and converts to exactly that character.
#[verifier::external_body]
fn char_of_code(code: u32) -> (c: char)
    requires
        code < 0xD800 || (0xE000 <= code && code <= 0x10FFFF),
    ensures
        c as u32 == code,
{
    char::from_u32(code).unwrap()
}

/// Exec counterpart of [`skip_ws`].
fn skip_ws_exec(s: &Vec<char>, i: usize) -> (r: usize)
    requires
        i <= s@.len(),
    ensures
        r == skip_ws(s@, i as int),
        i <= r <= s@.len(),
{
    let mut j = i;
    while j < s.len() && (s[j] == ' ' || s[j] == '\n' || s[j] == '\t' || s[j] == '\r')
        invariant
            i <= j <= s@.len(),
            skip_ws(s@, i as int) == skip_ws(s@, j as int),
        decreases s@.len() - j,
    {
        j += 1;
    }
    j
}

/// Exec counterpart of [`hex_val`].
fn hex_val_exec(c: char) -> (r: i8)
    ensures
        r as int == hex_val(c),
{
    if '0' <= c && c <= '9' {
        ((c as u32) - ('0' as u32)) as i8
    } else if 'a' <= c && c <= 'f' {
        (10 + (c as u32) - ('a' as u32)) as i8
    } else if 'A' <= c && c <= 'F' {
        (10 + (c as u32) - ('A' as u32)) as i8
    } else {
        -1
    }
}

/// Exec counterpart of [`parse_string_body`]: the decoded text and the
/// position after the closing quote.
fn parse_string_body_exec(s: &Vec<char>, i: usize) -> (r: Option<(Vec<char>, usize)>)
    requires
        i <= s@.len(),
    ensures
        match r {
            Some(p) => parse_string_body(s@, i as int) == Some((p.0@, p.1 as int)) && i < p.1
                <= s@.len(),
            None => parse_string_body(s@, i as int) is None,
        },
{
    let mut acc: Vec<char> = Vec::new();
    let mut cur = i;
    loop
        invariant
            i <= cur <= s@.len(),
            parse_string_body(s@, i as int) == (match parse_string_body(s@, cur as int) {
                Some((t, j)) => Some((acc@ + t, j)),
                None => None::<(Seq<char>, int)>,
            }),
        decreases s@.len() - cur,
    {
        if cur >= s.len() {
            return None;
        }
        let c = s[cur];
        if c == '"' {
            proof {
                assert(acc@ + Seq::<char>::empty() =~= acc@);
                if parse_string_body(s@, i as int) is Some {
                    lemma_parse_string_body_advances(s@, i as int);
                }
            }
            return Some((acc, cur + 1));
        } else if c == '\\' {
            if s.len() - cur < 2 {
                return None;
            }
            let e = s[cur + 1];
            if e == 'u' {
                if s.len() - cur < 6 {
                    return None;
                }
                let h1 = hex_val_exec(s[cur + 2]);
                let h2 = hex_val_exec(s[cur + 3]);
                let h3 = hex_val_exec(s[cur + 4]);
                let h4 = hex_val_exec(s[cur + 5]);
                if h1 < 0 || h2 < 0 || h3 < 0 || h4 < 0 {
                    return None;
                }
                let code: u32 = (h1 as u32) * 4096 + (h2 as u32) * 256 + (h3 as u32) * 16 + (
                h4 as u32);
                if 0xD800 <= code && code <= 0xDFFF {
                    return None;
                }
                let d = char_of_code(code);
                proof {
                    vstd::utf8::char_u32_cast(d, code);
                }
                let ghost prev = acc@;
                acc.push(d);
                proof {
                    assert forall|t: Seq<char>| prev + (seq![d] + t) =~= acc@ + t by {}
                }
                cur = cur + 6;
            } else if e == '"' || e == '\\' || e == '/' || e == 'b' || e == 'f' || e == 'n' || e
                == 'r' || e == 't' {
                let d = if e == 'b' {
                    '\u{8}'
                } else if e == 'f' {
                    '\u{c}'
                } else if e == 'n' {
                    '\n'
                } else if e == 'r' {
                    '\r'
                } else if e == 't' {
                    '\t'
                } else {
                    e
                };
                let ghost prev = acc@;
                acc.push(d);
                proof {
                    assert forall|t: Seq<char>| prev + (seq![d] + t) =~= acc@ + t by {}
                }
                cur = cur + 2;
            } else {
                return None;
            }
        } else if (c as u32) < 0x20 {
            return None;
        } else {
            let ghost prev = acc@;
            acc.push(c);
            proof {
                assert forall|t: Seq<char>| prev + (seq![c] + t) =~= acc@ + t by {}
            }
            cur = cur + 1;
        }
    }
}


/// Read one `"key": string` member after any whitespace.
#[verifier::opaque]
pub open spec fn parse_member_str(s: Seq<char>, i: int, key: Seq<char>) -> Option<(Seq<char>, int)> {
    let j = skip_ws(s, i);
    match expect_lit(s, j, qkey(key)) {
        None => None,
        Some(j1) => match expect_token(s, j1, ':') {
            None => None,
            Some(j2) => parse_string_at(s, skip_ws(s, j2)),
        },
    }
}

/// Read one `"key": string-or-null` member after any whitespace.
#[verifier::opaque]
pub open spec fn parse_member_opt(s: Seq<char>, i: int, key: Seq<char>) -> Option<
    (Option<Seq<char>>, int),
> {
    let j = skip_ws(s, i);
    match expect_lit(s, j, qkey(key)) {
        None => None,
        Some(j1) => match expect_token(s, j1, ':') {
            None => None,
            Some(j2) => {
                let j3 = skip_ws(s, j2);
                if 0 <= j3 < s.len() && s[j3] == '"' {
                    match parse_string_at(s, j3) {
                        Some((v, j4)) => Some((Some(v), j4)),
                        None => None,
                    }
                } else {
                    match expect_lit(s, j3, seq!['n', 'u', 'l', 'l']) {
                        Some(j4) => Some((None, j4)),
                        None => None,
                    }
                }
            },
        },
    }
}

/// The status a persisted label denotes; the `All` wildcard has no label
/// on disk.
pub open spec fn status_of_label(l: Seq<char>) -> Option<JobStatus> {
    if l == status_label(JobStatus::Applied) {
        Some(JobStatus::Applied)
    } else if l == status_label(JobStatus::OA) {
        Some(JobStatus::OA)
    } else if l == status_label(JobStatus::Interview) {
        Some(JobStatus::Interview)
    } else if l == status_label(JobStatus::Rejected) {
        Some(JobStatus::Rejected)
    } else if l == status_label(JobStatus::Offer) {
        Some(JobStatus::Offer)
    } else if l == status_label(JobStatus::Accepted) {
        Some(JobStatus::Accepted)
    } else if l == status_label(JobStatus::Withdrawn) {
        Some(JobStatus::Withdrawn)
    } else {
        None
    }
}

/// Read the optional trailing `last_updated` member and the record's
/// closing brace.
#[verifier::opaque]
pub open spec fn parse_record_tail(s: Seq<char>, i: int, partial: JobAppView) -> Option<
    (JobAppView, int),
> {
    let j = skip_ws(s, i);
    if 0 <= j < s.len() && s[j] == ',' {
        match parse_member_opt(s, j + 1, key_last_updated()) {
            Some((lu, i2)) => match expect_token(s, i2, '}') {
                Some(i3) => Some((JobAppView { last_updated: lu, ..partial }, i3)),
                None => None,
            },
            None => None,
        }
    } else {
        match expect_token(s, i, '}') {
            Some(i2) => Some((partial, i2)),
            None => None,
        }
    }
}

/// Read one record object: the members in the tracker's fixed order,
/// `last_updated` optional for files written before it existed.
#[verifier::opaque]
pub open spec fn parse_record(s: Seq<char>, i: int) -> Option<(JobAppView, int)> {
    match expect_token(s, i, '{') {
        None => None,
        Some(i1) => match parse_member_str(s, i1, key_company()) {
            None => None,
            Some((company, i2)) => match expect_token(s, i2, ',') {
                None => None,
                Some(i3) => match parse_member_str(s, i3, key_position()) {
                    None => None,
                    Some((position, i4)) => match expect_token(s, i4, ',') {
                        None => None,
                        Some(i5) => match parse_member_str(s, i5, key_date_applied()) {
                            None => None,
                            Some((date_applied, i6)) => match expect_token(s, i6, ',') {
                                None => None,
                                Some(i7) => match parse_member_str(s, i7, key_status()) {
                                    None => None,
                                    Some((label, i8)) => match status_of_label(label) {
                                        None => None,
                                        Some(status) => match expect_token(s, i8, ',') {
                                            None => None,
                                            Some(i9) => match parse_member_str(
                                                s,
                                                i9,
                                                key_notes(),
                                            ) {
                                                None => None,
                                                Some((notes, i10)) => match expect_token(
                                                    s,
                                                    i10,
                                                    ',',
                                                ) {
                                                    None => None,
                                                    Some(i11) => match parse_member_opt(
                                                        s,
                                                        i11,
                                                        key_url(),
                                                    ) {
                                                        None => None,
                                                        Some((url, i12)) => parse_record_tail(
                                                            s,
                                                            i12,
                                                            JobAppView {
                                                                company,
                                                                position,
                                                                date_applied,
                                                                status,
                                                                notes,
                                                                url,
                                                                last_updated: None,
                                                            },
                                                        ),
                                                    },
                                                },
                                            },
                                        },
                                    },
                                },
                            },
                        },
                    },
                },
            },
        },
    }
}

/// Read records separated by commas up to the array's closing bracket.
/// The fuel only bounds the recursion; reading the whole text consumes
/// one unit per record, so the text's length is always enough.
pub open spec fn parse_record_list(s: Seq<char>, i: int, fuel: nat) -> Option<
    (Seq<JobAppView>, int),
>
    decreases fuel,
{
    if fuel == 0 {
        None
    } else {
        match parse_record(s, i) {
            None => None,
            Some((r, j)) => {
                let k = skip_ws(s, j);
                if 0 <= k < s.len() && s[k] == ',' {
                    match parse_record_list(s, k + 1, (fuel - 1) as nat) {
                        Some((rest, m)) => Some((seq![r] + rest, m)),
                        None => None,
                    }
                } else if 0 <= k < s.len() && s[k] == ']' {
                    Some((seq![r], k + 1))
                } else {
                    None
                }
            },
        }
    }
}

/// Read a whole persisted text: the array of records, with nothing but
/// whitespace after it.
pub open spec fn parse_jobs_text(s: Seq<char>) -> Option<Seq<JobAppView>> {
    match expect_token(s, 0, '[') {
        None => None,
        Some(i1) => {
            let j = skip_ws(s, i1);
            if 0 <= j < s.len() && s[j] == ']' {
                if skip_ws(s, j + 1) == s.len() {
                    Some(Seq::empty())
                } else {
                    None
                }
            } else {
                match parse_record_list(s, i1, s.len() as nat) {
                    Some((rs, end)) => if skip_ws(s, end) == s.len() {
                        Some(rs)
                    } else {
                        None
                    },
                    None => None,
                }
            }
        },
    }
}

/// Exec counterpart of [`expect_lit`].
fn expect_lit_exec(s: &Vec<char>, i: usize, lit: &Vec<char>) -> (r: Option<usize>)
    ensures
        match r {
            Some(j) => expect_lit(s@, i as int, lit@) == Some(j as int) && i <= j <= s@.len(),
            None => expect_lit(s@, i as int, lit@) is None,
        },
{
    if i > s.len() || s.len() - i < lit.len() {
        return None;
    }
    let mut k: usize = 0;
    while k < lit.len()
        invariant
            k <= lit.len(),
            i + lit.len() <= s.len(),
            forall|l: int| 0 <= l < k ==> s@[i + l] == lit@[l],
        decreases lit.len() - k,
    {
        if s[i + k] != lit[k] {
            proof {
                assert(s@.subrange(i as int, i + lit@.len()) != lit@) by {
                    assert(s@.subrange(i as int, i + lit@.len())[k as int] == s@[i + k]);
                }
            }
            return None;
        }
        k += 1;
    }
    proof {
        assert(s@.subrange(i as int, i + lit@.len()) =~= lit@);
    }
    Some(i + lit.len())
}

/// Exec counterpart of [`expect_token`].
fn expect_token_exec(s: &Vec<char>, i: usize, c: char) -> (r: Option<usize>)
    requires
        i <= s@.len(),
    ensures
        match r {
            Some(j) => expect_token(s@, i as int, c) == Some(j as int) && i < j <= s@.len(),
            None => expect_token(s@, i as int, c) is None,
        },
{
    let j = skip_ws_exec(s, i);
    if j < s.len() && s[j] == c {
        Some(j + 1)
    } else {
        None
    }
}

/// Exec counterpart of [`parse_member_str`].
fn parse_member_str_exec(s: &Vec<char>, i: usize, key: &Vec<char>) -> (r: Option<(Vec<char>, usize)>)
    requires
        i <= s@.len(),
    ensures
        match r {
            Some(p) => parse_member_str(s@, i as int, key@) == Some((p.0@, p.1 as int)) && i < p.1
                <= s@.len(),
            None => parse_member_str(s@, i as int, key@) is None,
        },
{
    proof {
        reveal(parse_member_str);
    }
    let j = skip_ws_exec(s, i);
    let mut q: Vec<char> = Vec::new();
    q.push('"');
    q.append(&mut key.clone());
    q.push('"');
    proof {
        reveal(qkey);
        assert(q@ =~= qkey(key@));
    }
    match expect_lit_exec(s, j, &q) {
        None => None,
        Some(j1) => match expect_token_exec(s, j1, ':') {
            None => None,
            Some(j2) => {
                let j3 = skip_ws_exec(s, j2);
                if j3 < s.len() && s[j3] == '"' {
                    match parse_string_body_exec(s, j3 + 1) {
                        Some(p) => Some(p),
                        None => None,
                    }
                } else {
                    None
                }
            },
        },
    }
}

/// Exec counterpart of [`parse_member_opt`].
fn parse_member_opt_exec(s: &Vec<char>, i: usize, key: &Vec<char>) -> (r: Option<
    (Option<Vec<char>>, usize),
>)
    requires
        i <= s@.len(),
    ensures
        match r {
            Some(p) => parse_member_opt(s@, i as int, key@) == Some(
                (
                    match p.0 {
                        Some(v) => Some(v@),
                        None => None,
                    },
                    p.1 as int,
                ),
            ) && i < p.1 <= s@.len(),
            None => parse_member_opt(s@, i as int, key@) is None,
        },
{
    proof {
        reveal(parse_member_opt);
    }
    let j = skip_ws_exec(s, i);
    let mut q: Vec<char> = Vec::new();
    q.push('"');
    q.append(&mut key.clone());
    q.push('"');
    proof {
        reveal(qkey);
        assert(q@ =~= qkey(key@));
    }
    match expect_lit_exec(s, j, &q) {
        None => None,
        Some(j1) => match expect_token_exec(s, j1, ':') {
            None => None,
            Some(j2) => {
                let j3 = skip_ws_exec(s, j2);
                if j3 < s.len() && s[j3] == '"' {
                    match parse_string_body_exec(s, j3 + 1) {
                        Some(p) => Some((Some(p.0), p.1)),
                        None => None,
                    }
                } else {
                    let mut nl: Vec<char> = Vec::new();
                    nl.push('n');
                    nl.push('u');
                    nl.push('l');
                    nl.push('l');
                    proof {
                        assert(nl@ =~= seq!['n', 'u', 'l', 'l']);
                    }
                    match expect_lit_exec(s, j3, &nl) {
                        Some(j4) => Some((None, j4)),
                        None => None,
                    }
                }
            },
        },
    }
}

/// Exec counterpart of [`status_of_label`].
fn status_of_label_exec(l: &Vec<char>) -> (r: Option<JobStatus>)
    ensures
        r == status_of_label(l@),
{
    let variants = [
        JobStatus::Applied,
        JobStatus::OA,
        JobStatus::Interview,
        JobStatus::Rejected,
        JobStatus::Offer,
        JobStatus::Accepted,
        JobStatus::Withdrawn,
    ];
    let mut k: usize = 0;
    while k < 7
        invariant
            k <= 7,
            variants@ =~= seq![
                JobStatus::Applied,
                JobStatus::OA,
                JobStatus::Interview,
                JobStatus::Rejected,
                JobStatus::Offer,
                JobStatus::Accepted,
                JobStatus::Withdrawn,
            ],
            forall|m: int| 0 <= m < k ==> l@ != status_label(variants@[m]),
        decreases 7 - k,
    {
        let st = variants[k];
        let lbl = chars_of(st.name().as_str());
        if matches!(crate::text::lex_cmp(l, &lbl), core::cmp::Ordering::Equal) {
            return Some(st);
        }
        k += 1;
    }
    None
}

/// Exec counterpart of [`parse_record`].
fn parse_record_exec(s: &Vec<char>, i: usize) -> (r: Option<(JobApplication, usize)>)
    requires
        i <= s@.len(),
    ensures
        match r {
            Some(p) => parse_record(s@, i as int) == Some((p.0@, p.1 as int)) && i < p.1
                <= s@.len() && storable(p.0@),
            None => parse_record(s@, i as int) is None,
        },
{
    proof {
        reveal(parse_record);
        reveal(parse_record_tail);
        reveal_strlit("company");
        reveal_strlit("position");
        reveal_strlit("date_applied");
        reveal_strlit("status");
        reveal_strlit("notes");
        reveal_strlit("url");
        reveal_strlit("last_updated");
        reveal(key_company);
        reveal(key_position);
        reveal(key_date_applied);
        reveal(key_status);
        reveal(key_notes);
        reveal(key_url);
        reveal(key_last_updated);
        assert("company"@ =~= key_company());
        assert("position"@ =~= key_position());
        assert("date_applied"@ =~= key_date_applied());
        assert("status"@ =~= key_status());
        assert("notes"@ =~= key_notes());
        assert("url"@ =~= key_url());
        assert("last_updated"@ =~= key_last_updated());
    }
    let i1 = match expect_token_exec(s, i, '{') {
        Some(j) => j,
        None => {
            return None;
        },
    };
    let (company, i2) = match parse_member_str_exec(s, i1, &chars_of("company")) {
        Some(p) => p,
        None => {
            return None;
        },
    };
    let i3 = match expect_token_exec(s, i2, ',') {
        Some(j) => j,
        None => {
            return None;
        },
    };
    let (position, i4) = match parse_member_str_exec(s, i3, &chars_of("position")) {
        Some(p) => p,
        None => {
            return None;
        },
    };
    let i5 = match expect_token_exec(s, i4, ',') {
        Some(j) => j,
        None => {
            return None;
        },
    };
    let (date_applied, i6) = match parse_member_str_exec(s, i5, &chars_of("date_applied")) {
        Some(p) => p,
        None => {
            return None;
        },
    };
    let i7 = match expect_token_exec(s, i6, ',') {
        Some(j) => j,
        None => {
            return None;
        },
    };
    let (label, i8) = match parse_member_str_exec(s, i7, &chars_of("status")) {
        Some(p) => p,
        None => {
            return None;
        },
    };
    let status = match status_of_label_exec(&label) {
        Some(st) => st,
        None => {
            return None;
        },
    };
    let i9 = match expect_token_exec(s, i8, ',') {
        Some(j) => j,
        None => {
            return None;
        },
    };
    let (notes, i10) = match parse_member_str_exec(s, i9, &chars_of("notes")) {
        Some(p) => p,
        None => {
            return None;
        },
    };
    let i11 = match expect_token_exec(s, i10, ',') {
        Some(j) => j,
        None => {
            return None;
        },
    };
    let (url, i12) = match parse_member_opt_exec(s, i11, &chars_of("url")) {
        Some(p) => p,
        None => {
            return None;
        },
    };
    let job = JobApplication {
        company: string_of_chars(&company),
        position: string_of_chars(&position),
        date_applied: string_of_chars(&date_applied),
        status,
        notes: string_of_chars(&notes),
        url: match url {
            Some(u) => Some(string_of_chars(&u)),
            None => None,
        },
        last_updated: None,
    };
    let ghost partial = job@;
    let j = skip_ws_exec(s, i12);
    if j < s.len() && s[j] == ',' {
        let (lu, i14) = match parse_member_opt_exec(s, j + 1, &chars_of("last_updated")) {
            Some(p) => p,
            None => {
                return None;
            },
        };
        let i15 = match expect_token_exec(s, i14, '}') {
            Some(j2) => j2,
            None => {
                return None;
            },
        };
        let job2 = JobApplication {
            last_updated: match lu {
                Some(u) => Some(string_of_chars(&u)),
                None => None,
            },
            ..job
        };
        proof {
            assert(job2@ =~= (JobAppView {
                last_updated: match lu {
                    Some(u) => Some(u@),
                    None => None,
                },
                ..partial
            }));
        }
        Some((job2, i15))
    } else {
        let i13 = match expect_token_exec(s, i12, '}') {
            Some(j2) => j2,
            None => {
                return None;
            },
        };
        Some((job, i13))
    }
}

/// Exec counterpart of [`parse_record_list`].
fn parse_record_list_exec(s: &Vec<char>, i: usize, fuel: usize) -> (r: Option<
    (Vec<JobApplication>, usize),
>)
    requires
        i <= s@.len(),
    ensures
        match r {
            Some(p) => parse_record_list(s@, i as int, fuel as nat) == Some(
                (p.0.deep_view(), p.1 as int),
            ) && p.1 <= s@.len() && forall|k: int|
                0 <= k < p.0.deep_view().len() ==> storable(#[trigger] p.0.deep_view()[k]),
            None => parse_record_list(s@, i as int, fuel as nat) is None,
        },
    decreases fuel,
{
    if fuel == 0 {
        return None;
    }
    let (job, j) = match parse_record_exec(s, i) {
        Some(p) => p,
        None => {
            return None;
        },
    };
    let k = skip_ws_exec(s, j);
    if k < s.len() && s[k] == ',' {
        match parse_record_list_exec(s, k + 1, fuel - 1) {
            Some((mut rest, m)) => {
                let ghost rest_view = rest.deep_view();
                rest.insert(0, job);
                proof {
                    assert(rest.deep_view() =~= seq![job@] + rest_view);
                }
                Some((rest, m))
            },
            None => None,
        }
    } else if k < s.len() && s[k] == ']' {
        let mut one: Vec<JobApplication> = Vec::new();
        one.push(job);
        proof {
            assert(one.deep_view() =~= seq![job@]);
        }
        Some((one, k + 1))
    } else {
        None
    }
}

/// Read a persisted text back into records. Every text this module
/// renders reads back; a text that does not fit the record schema is a
/// parse failure.
pub fn parse_jobs(text: &str) -> (r: Result<Vec<JobApplication>, StorageError>)
    ensures
        match r {
            Ok(v) => parse_jobs_text(text@) == Some(v.deep_view()) && forall|k: int|
                0 <= k < v.deep_view().len() ==> storable(#[trigger] v.deep_view()[k]),
            Err(e) => parse_jobs_text(text@) is None && e is ParseError,
        },
{
    let s = chars_of(text);
    let i1 = match expect_token_exec(&s, 0, '[') {
        Some(j) => j,
        None => {
            return Err(StorageError::ParseError);
        },
    };
    let j = skip_ws_exec(&s, i1);
    if j < s.len() && s[j] == ']' {
        if skip_ws_exec(&s, j + 1) == s.len() {
            let empty: Vec<JobApplication> = Vec::new();
            proof {
                assert(empty.deep_view() =~= Seq::<JobAppView>::empty());
            }
            Ok(empty)
        } else {
            Err(StorageError::ParseError)
        }
    } else {
        match parse_record_list_exec(&s, i1, s.len()) {
            Some((jobs, end)) => {
                if skip_ws_exec(&s, end) == s.len() {
                    Ok(jobs)
                } else {
                    Err(StorageError::ParseError)
                }
            },
            None => Err(StorageError::ParseError),
        }
    }
}


/// A subrange equal to a concatenation splits into subranges equal to
/// the parts.
proof fn lemma_subrange_concat(s: Seq<char>, i: int, a: Seq<char>, b: Seq<char>)
    requires
        0 <= i,
        i + a.len() + b.len() <= s.len(),
        s.subrange(i, i + a.len() + b.len()) == a + b,
    ensures
        s.subrange(i, i + a.len()) == a,
        s.subrange(i + a.len(), i + a.len() + b.len()) == b,
{
    assert forall|k: int| 0 <= k < a.len() implies s.subrange(i, i + a.len())[k] == a[k] by {
        assert(s.subrange(i, i + a.len() + b.len())[k] == s[i + k]);
    }
    assert(s.subrange(i, i + a.len()) =~= a);
    assert forall|k: int| 0 <= k < b.len() implies s.subrange(
        i + a.len(),
        i + a.len() + b.len(),
    )[k] == b[k] by {
        assert(s.subrange(i, i + a.len() + b.len())[a.len() + k] == s[i + a.len() + k]);
    }
    assert(s.subrange(i + a.len(), i + a.len() + b.len()) =~= b);
}

/// A hexadecimal digit reads back as its value.
proof fn lemma_hex_digit_val(n: int)
    requires
        0 <= n < 16,
    ensures
        hex_val(hex_digit(n)) == n,
{
}

/// An escaped text between its position and its closing quote parses
/// back to the original text.
#[verifier::rlimit(100)]
proof fn lemma_parse_escaped(s: Seq<char>, i: int, x: Seq<char>)
    requires
        0 <= i,
        i + json_escape(x).len() + 1 <= s.len(),
        s.subrange(i, i + json_escape(x).len()) == json_escape(x),
        s[i + json_escape(x).len()] == '"',
    ensures
        parse_string_body(s, i) == Some((x, i + json_escape(x).len() + 1)),
    decreases x.len(),
{
    let e = json_escape(x);
    if x.len() == 0 {
        assert(e.len() == 0);
        assert(s[i] == '"');
    } else {
        let c = x[0];
        let e0 = esc_char(c);
        let rest = json_escape(x.drop_first());
        assert(e == e0 + rest);
        lemma_subrange_concat(s, i, e0, rest);
        let i2 = i + e0.len();
        assert forall|k: int| 0 <= k < e0.len() implies s[i + k] == e0[k] by {
            assert(s.subrange(i, i + e0.len())[k] == s[i + k]);
        }
        lemma_parse_escaped(s, i2, x.drop_first());
        if c == '"' || c == '\\' {
            assert(s[i] == '\\');
            assert(parse_string_body(s, i) == Some((seq![c] + x.drop_first(), i + e.len() + 1)));
        } else if c == '\u{8}' || c == '\t' || c == '\n' || c == '\u{c}' || c == '\r' {
            assert(s[i] == '\\');
            assert(unescape_short(s[i + 1]) == c);
            assert(parse_string_body(s, i) == Some((seq![c] + x.drop_first(), i + e.len() + 1)));
        } else if (c as u32) < 0x20 {
            assert(s[i] == '\\' && s[i + 1] == 'u' && s[i + 2] == '0' && s[i + 3] == '0');
            let hi = (c as u32) as int / 16;
            let lo = (c as u32) as int % 16;
            assert(s[i + 4] == hex_digit(hi) && s[i + 5] == hex_digit(lo));
            lemma_hex_digit_val(hi);
            lemma_hex_digit_val(lo);
            assert(hex_val(s[i + 2]) == 0 && hex_val(s[i + 3]) == 0);
            let code = hex_val(s[i + 2]) * 4096 + hex_val(s[i + 3]) * 256 + hex_val(s[i + 4]) * 16
                + hex_val(s[i + 5]);
            assert(code == c as u32);
            assert(!(0xD800 <= code <= 0xDFFF));
            vstd::utf8::char_u32_cast(c, c as u32);
            assert(((code as u32) as char) == c);
            assert(parse_string_body(s, i) == Some((seq![c] + x.drop_first(), i + e.len() + 1)));
        } else {
            assert(s[i + 0] == e0[0]);
            assert(s[i] == c);
            assert(c != '"' && c != '\\' && !((c as u32) < 0x20));
            assert(parse_string_body(s, i) == Some((seq![c] + x.drop_first(), i + e.len() + 1)));
        }
        assert(seq![c] + x.drop_first() =~= x);
    }
}

/// A rendered JSON string parses back to its text.
proof fn lemma_parse_quoted(s: Seq<char>, i: int, x: Seq<char>)
    requires
        0 <= i,
        i + quoted(x).len() <= s.len(),
        s.subrange(i, i + quoted(x).len()) == quoted(x),
    ensures
        parse_string_at(s, i) == Some((x, i + quoted(x).len())),
{
    reveal(quoted);
    let q = quoted(x);
    let body = json_escape(x) + seq!['"'];
    lemma_subrange_concat(s, i, seq!['"'], body);
    assert(s[i] == '"') by {
        assert(s.subrange(i, i + 1)[0] == s[i]);
    }
    lemma_subrange_concat(s, i + 1, json_escape(x), seq!['"']);
    assert(s[i + 1 + json_escape(x).len()] == '"') by {
        assert(s.subrange(
            i + 1 + json_escape(x).len(),
            i + 1 + json_escape(x).len() + 1,
        )[0] == s[i + 1 + json_escape(x).len()]);
    }
    lemma_parse_escaped(s, i + 1, x);
}

/// A rendered `"key": string` member, reached across any whitespace,
/// parses back to its value.
proof fn lemma_parse_member_str(s: Seq<char>, i0: int, j: int, key: Seq<char>, v: Seq<char>)
    requires
        0 <= i0 <= j,
        j + member_tail(key, quoted(v)).len() <= s.len(),
        skip_ws(s, j) == j,
        forall|k: int| i0 <= k < j ==> is_ws(#[trigger] s[k]),
        s.subrange(j, j + member_tail(key, quoted(v)).len()) == member_tail(key, quoted(v)),
    ensures
        parse_member_str(s, i0, key) == Some((v, j + member_tail(key, quoted(v)).len())),
{
    reveal(parse_member_str);
    reveal(member_tail);
    reveal(quoted);
    let t = member_tail(key, quoted(v));
    lemma_skip_ws_run_to(s, i0, j);
    lemma_subrange_concat(s, j, qkey(key), seq![':', ' '] + quoted(v));
    let j1 = j + qkey(key).len();
    assert(expect_lit(s, j, qkey(key)) == Some(j1));
    lemma_subrange_concat(s, j1, seq![':', ' '], quoted(v));
    assert(s[j1] == ':' && s[j1 + 1] == ' ') by {
        assert(s.subrange(j1, j1 + 2)[0] == s[j1]);
        assert(s.subrange(j1, j1 + 2)[1] == s[j1 + 1]);
    }
    let j3 = j1 + 2;
    assert(s[j3] == '"') by {
        assert(s.subrange(j3, j3 + quoted(v).len())[0] == s[j3]);
    }
    lemma_skip_ws_run(s, j1, 0);
    assert(expect_token(s, j1, ':') == Some(j1 + 1));
    lemma_skip_ws_run(s, j1 + 1, 1);
    lemma_parse_quoted(s, j3, v);
}

/// A rendered nullable member, reached across any whitespace, parses
/// back to its value.
proof fn lemma_parse_member_opt(
    s: Seq<char>,
    i0: int,
    j: int,
    key: Seq<char>,
    v: Option<Seq<char>>,
)
    requires
        0 <= i0 <= j,
        j + member_tail(key, nullable(v)).len() <= s.len(),
        skip_ws(s, j) == j,
        forall|k: int| i0 <= k < j ==> is_ws(#[trigger] s[k]),
        s.subrange(j, j + member_tail(key, nullable(v)).len()) == member_tail(key, nullable(v)),
    ensures
        parse_member_opt(s, i0, key) == Some((v, j + member_tail(key, nullable(v)).len())),
{
    reveal(parse_member_opt);
    reveal(member_tail);
    reveal(nullable);
    reveal(quoted);
    let t = member_tail(key, nullable(v));
    lemma_skip_ws_run_to(s, i0, j);
    lemma_subrange_concat(s, j, qkey(key), seq![':', ' '] + nullable(v));
    let j1 = j + qkey(key).len();
    assert(expect_lit(s, j, qkey(key)) == Some(j1));
    lemma_subrange_concat(s, j1, seq![':', ' '], nullable(v));
    assert(s[j1] == ':' && s[j1 + 1] == ' ') by {
        assert(s.subrange(j1, j1 + 2)[0] == s[j1]);
        assert(s.subrange(j1, j1 + 2)[1] == s[j1 + 1]);
    }
    let j3 = j1 + 2;
    lemma_skip_ws_run(s, j1, 0);
    assert(expect_token(s, j1, ':') == Some(j1 + 1));
    match v {
        Some(u) => {
            assert(s[j3] == '"') by {
                assert(s.subrange(j3, j3 + quoted(u).len())[0] == s[j3]);
            }
            lemma_skip_ws_run(s, j1 + 1, 1);
            lemma_parse_quoted(s, j3, u);
        },
        None => {
            assert(s[j3] == 'n') by {
                assert(s.subrange(j3, j3 + 4)[0] == s[j3]);
            }
            lemma_skip_ws_run(s, j1 + 1, 1);
            assert(expect_lit(s, j3, seq!['n', 'u', 'l', 'l']) == Some(j3 + 4));
        },
    }
}

/// Whitespace from `i0` up to a non-whitespace position `j` is skipped
/// exactly to `j`.
proof fn lemma_skip_ws_run_to(s: Seq<char>, i0: int, j: int)
    requires
        0 <= i0 <= j,
        j <= s.len(),
        skip_ws(s, j) == j,
        forall|k: int| i0 <= k < j ==> is_ws(#[trigger] s[k]),
    ensures
        skip_ws(s, i0) == j,
    decreases j - i0,
{
    if i0 < j {
        lemma_skip_ws_run_to(s, i0 + 1, j);
    }
}


/// One character of a matched subrange.
proof fn lemma_subrange_index(s: Seq<char>, i: int, t: Seq<char>, k: int)
    requires
        0 <= i,
        i + t.len() <= s.len(),
        s.subrange(i, i + t.len()) == t,
        0 <= k < t.len(),
    ensures
        s[i + k] == t[k],
{
    assert(s.subrange(i, i + t.len())[k] == s[i + k]);
}

/// A rendered member with its indent, reached across any whitespace,
/// parses back to its value.
proof fn lemma_parse_member_indent(s: Seq<char>, cp: int, q: int, key: Seq<char>, v: Seq<char>)
    requires
        0 <= cp <= q,
        q + member(key, quoted(v)).len() <= s.len(),
        s.subrange(q, q + member(key, quoted(v)).len()) == member(key, quoted(v)),
        forall|k: int| cp <= k < q ==> is_ws(#[trigger] s[k]),
    ensures
        parse_member_str(s, cp, key) == Some((v, q + member(key, quoted(v)).len())),
{
    reveal(member);
    reveal(member_tail);
    reveal(qkey);
    let t = member_tail(key, quoted(v));
    lemma_subrange_concat(s, q, seq![' ', ' ', ' ', ' '], t);
    lemma_subrange_index(s, q, seq![' ', ' ', ' ', ' '], 0);
    lemma_subrange_index(s, q, seq![' ', ' ', ' ', ' '], 1);
    lemma_subrange_index(s, q, seq![' ', ' ', ' ', ' '], 2);
    lemma_subrange_index(s, q, seq![' ', ' ', ' ', ' '], 3);
    lemma_subrange_index(s, q + 4, t, 0);
    assert(s[q + 4] == '"');
    assert(skip_ws(s, q + 4) == q + 4);
    lemma_parse_member_str(s, cp, q + 4, key, v);
}

/// The nullable form of [`lemma_parse_member_indent`].
proof fn lemma_parse_member_indent_opt(
    s: Seq<char>,
    cp: int,
    q: int,
    key: Seq<char>,
    v: Option<Seq<char>>,
)
    requires
        0 <= cp <= q,
        q + member(key, nullable(v)).len() <= s.len(),
        s.subrange(q, q + member(key, nullable(v)).len()) == member(key, nullable(v)),
        forall|k: int| cp <= k < q ==> is_ws(#[trigger] s[k]),
    ensures
        parse_member_opt(s, cp, key) == Some((v, q + member(key, nullable(v)).len())),
{
    reveal(member);
    reveal(member_tail);
    reveal(qkey);
    reveal(nullable);
    let t = member_tail(key, nullable(v));
    lemma_subrange_concat(s, q, seq![' ', ' ', ' ', ' '], t);
    lemma_subrange_index(s, q, seq![' ', ' ', ' ', ' '], 0);
    lemma_subrange_index(s, q, seq![' ', ' ', ' ', ' '], 1);
    lemma_subrange_index(s, q, seq![' ', ' ', ' ', ' '], 2);
    lemma_subrange_index(s, q, seq![' ', ' ', ' ', ' '], 3);
    lemma_subrange_index(s, q + 4, t, 0);
    assert(s[q + 4] == '"');
    assert(skip_ws(s, q + 4) == q + 4);
    lemma_parse_member_opt(s, cp, q + 4, key, v);
}

/// A persisted label reads back as its status.
proof fn lemma_status_label_round(st: JobStatus)
    requires
        st != JobStatus::All,
    ensures
        status_of_label(status_label(st)) == Some(st),
{
}

/// A rendered record, reached across any whitespace, parses back to
/// itself.
#[verifier::rlimit(100)]
proof fn lemma_parse_record_round(s: Seq<char>, i0: int, q0: int, r: JobAppView)
    requires
        storable(r),
        0 <= i0 <= q0,
        q0 + encode_record(r).len() <= s.len(),
        s.subrange(q0, q0 + encode_record(r).len()) == encode_record(r),
        forall|k: int| i0 <= k < q0 ==> is_ws(#[trigger] s[k]),
    ensures
        parse_record(s, i0) == Some((r, q0 + encode_record(r).len())),
{
    reveal(parse_record);
    reveal(parse_record_tail);
    reveal(encode_record);
    reveal(record_from_company);
    reveal(record_from_position);
    reveal(record_from_date);
    reveal(record_from_status);
    reveal(record_from_notes);
    reveal(record_from_url);
    reveal(record_from_last_updated);
    reveal(record_close);
    let p0 = seq![' ', ' ', '{', '\n'];
    let sep = seq![',', '\n'];
    let m1 = member(key_company(), quoted(r.company));
    let m2 = member(key_position(), quoted(r.position));
    let m3 = member(key_date_applied(), quoted(r.date_applied));
    let m4 = member(key_status(), quoted(status_label(r.status)));
    let m5 = member(key_notes(), quoted(r.notes));
    let m6 = member(key_url(), nullable(r.url));
    let m7 = member(key_last_updated(), nullable(r.last_updated));
    lemma_subrange_concat(s, q0, p0, record_from_company(r));
    lemma_subrange_index(s, q0, p0, 0);
    lemma_subrange_index(s, q0, p0, 1);
    lemma_subrange_index(s, q0, p0, 2);
    lemma_subrange_index(s, q0, p0, 3);
    assert(skip_ws(s, q0 + 2) == q0 + 2);
    lemma_skip_ws_run_to(s, i0, q0 + 2);
    assert(expect_token(s, i0, '{') == Some(q0 + 3));
    let q1 = q0 + 4;
    lemma_subrange_concat(s, q1, m1, sep + record_from_position(r));
    lemma_parse_member_indent(s, q0 + 3, q1, key_company(), r.company);
    let e1 = q1 + m1.len();
    lemma_subrange_concat(s, e1, sep, record_from_position(r));
    lemma_subrange_index(s, e1, sep, 0);
    lemma_subrange_index(s, e1, sep, 1);
    assert(skip_ws(s, e1) == e1);
    assert(expect_token(s, e1, ',') == Some(e1 + 1));
    let q2 = e1 + 2;
    lemma_subrange_concat(s, q2, m2, sep + record_from_date(r));
    lemma_parse_member_indent(s, e1 + 1, q2, key_position(), r.position);
    let e2 = q2 + m2.len();
    lemma_subrange_concat(s, e2, sep, record_from_date(r));
    lemma_subrange_index(s, e2, sep, 0);
    lemma_subrange_index(s, e2, sep, 1);
    assert(skip_ws(s, e2) == e2);
    assert(expect_token(s, e2, ',') == Some(e2 + 1));
    let q3 = e2 + 2;
    lemma_subrange_concat(s, q3, m3, sep + record_from_status(r));
    lemma_parse_member_indent(s, e2 + 1, q3, key_date_applied(), r.date_applied);
    let e3 = q3 + m3.len();
    lemma_subrange_concat(s, e3, sep, record_from_status(r));
    lemma_subrange_index(s, e3, sep, 0);
    lemma_subrange_index(s, e3, sep, 1);
    assert(skip_ws(s, e3) == e3);
    assert(expect_token(s, e3, ',') == Some(e3 + 1));
    let q4 = e3 + 2;
    lemma_subrange_concat(s, q4, m4, sep + record_from_notes(r));
    lemma_parse_member_indent(s, e3 + 1, q4, key_status(), status_label(r.status));
    lemma_status_label_round(r.status);
    let e4 = q4 + m4.len();
    lemma_subrange_concat(s, e4, sep, record_from_notes(r));
    lemma_subrange_index(s, e4, sep, 0);
    lemma_subrange_index(s, e4, sep, 1);
    assert(skip_ws(s, e4) == e4);
    assert(expect_token(s, e4, ',') == Some(e4 + 1));
    let q5 = e4 + 2;
    lemma_subrange_concat(s, q5, m5, sep + record_from_url(r));
    lemma_parse_member_indent(s, e4 + 1, q5, key_notes(), r.notes);
    let e5 = q5 + m5.len();
    lemma_subrange_concat(s, e5, sep, record_from_url(r));
    lemma_subrange_index(s, e5, sep, 0);
    lemma_subrange_index(s, e5, sep, 1);
    assert(skip_ws(s, e5) == e5);
    assert(expect_token(s, e5, ',') == Some(e5 + 1));
    let q6 = e5 + 2;
    lemma_subrange_concat(s, q6, m6, sep + record_from_last_updated(r));
    lemma_parse_member_indent_opt(s, e5 + 1, q6, key_url(), r.url);
    let e6 = q6 + m6.len();
    lemma_subrange_concat(s, e6, sep, record_from_last_updated(r));
    lemma_subrange_index(s, e6, sep, 0);
    lemma_subrange_index(s, e6, sep, 1);
    assert(skip_ws(s, e6) == e6);
    let q7 = e6 + 2;
    lemma_subrange_concat(s, q7, m7, record_close());
    lemma_parse_member_indent_opt(s, e6 + 1, q7, key_last_updated(), r.last_updated);
    let e7 = q7 + m7.len();
    lemma_subrange_index(s, e7, record_close(), 0);
    lemma_subrange_index(s, e7, record_close(), 1);
    lemma_subrange_index(s, e7, record_close(), 2);
    lemma_subrange_index(s, e7, record_close(), 3);
    assert(skip_ws(s, e7 + 3) == e7 + 3);
    lemma_skip_ws_run_to(s, e7, e7 + 3);
    assert(expect_token(s, e7, '}') == Some(e7 + 4));
    let partial = JobAppView {
        company: r.company,
        position: r.position,
        date_applied: r.date_applied,
        status: r.status,
        notes: r.notes,
        url: r.url,
        last_updated: None,
    };
    assert(parse_record_tail(s, e6, partial) == Some((r, e7 + 4))) by {
        assert(skip_ws(s, e6) == e6 && s[e6] == ',');
        assert((JobAppView { last_updated: r.last_updated, ..partial }) =~= r);
    }
    assert(e7 + 4 == q0 + encode_record(r).len());
}

/// The rendering of the records from position `k` on, right-nested for
/// reading back.
pub open spec fn encode_records_from(jobs: Seq<JobAppView>, k: int) -> Seq<char>
    decreases jobs.len() - k,
{
    if k < 0 || k >= jobs.len() {
        Seq::empty()
    } else {
        encode_record(jobs[k]) + ((if k + 1 < jobs.len() {
            seq![',', '\n']
        } else {
            seq!['\n']
        }) + encode_records_from(jobs, k + 1))
    }
}

/// The two renderings of the record list agree: the first `k` records
/// and the rest together are the whole.
proof fn lemma_records_upto_from(jobs: Seq<JobAppView>, k: int)
    requires
        0 <= k <= jobs.len(),
    ensures
        encode_records_upto(jobs, k) + encode_records_from(jobs, k) == encode_records_from(
            jobs,
            0,
        ),
    decreases k,
{
    if k == 0 {
        assert(encode_records_upto(jobs, 0) + encode_records_from(jobs, 0) =~= encode_records_from(
            jobs,
            0,
        ));
    } else {
        lemma_records_upto_from(jobs, k - 1);
        assert(encode_records_upto(jobs, k) + encode_records_from(jobs, k)
            =~= encode_records_upto(jobs, k - 1) + encode_records_from(jobs, k - 1));
    }
}

/// Each rendered record adds at least one character.
proof fn lemma_upto_len(jobs: Seq<JobAppView>, n: int)
    requires
        0 <= n <= jobs.len(),
    ensures
        encode_records_upto(jobs, n).len() >= n,
    decreases n,
{
    if n > 0 {
        lemma_upto_len(jobs, n - 1);
    }
}

/// A rendered tail of the record list, reached across any whitespace
/// and followed by the closing bracket, parses back to those records.
#[verifier::rlimit(100)]
proof fn lemma_parse_list_round(s: Seq<char>, i0: int, q0: int, jobs: Seq<JobAppView>, k: int, fuel: nat)
    requires
        0 <= k < jobs.len(),
        forall|m: int| 0 <= m < jobs.len() ==> storable(#[trigger] jobs[m]),
        0 <= i0 <= q0,
        q0 + encode_records_from(jobs, k).len() < s.len(),
        s.subrange(q0, q0 + encode_records_from(jobs, k).len()) == encode_records_from(jobs, k),
        s[q0 + encode_records_from(jobs, k).len()] == ']',
        forall|m: int| i0 <= m < q0 ==> is_ws(#[trigger] s[m]),
        fuel >= jobs.len() - k,
    ensures
        parse_record_list(s, i0, fuel) == Some(
            (jobs.skip(k), q0 + encode_records_from(jobs, k).len() + 1),
        ),
    decreases jobs.len() - k,
{
    let f = encode_records_from(jobs, k);
    let rec = encode_record(jobs[k]);
    if k + 1 < jobs.len() {
        let sep = seq![',', '\n'];
        let rest = encode_records_from(jobs, k + 1);
        lemma_subrange_concat(s, q0, rec, sep + rest);
        lemma_parse_record_round(s, i0, q0, jobs[k]);
        let e = q0 + rec.len();
        lemma_subrange_concat(s, e, sep, rest);
        lemma_subrange_index(s, e, sep, 0);
        lemma_subrange_index(s, e, sep, 1);
        assert(skip_ws(s, e) == e && s[e] == ',');
        lemma_parse_list_round(s, e + 1, e + 2, jobs, k + 1, (fuel - 1) as nat);
        assert(seq![jobs[k]] + jobs.skip(k + 1) =~= jobs.skip(k));
    } else {
        let sep = seq!['\n'];
        assert(encode_records_from(jobs, k + 1) =~= Seq::<char>::empty());
        assert(sep + encode_records_from(jobs, k + 1) =~= sep);
        assert(f == rec + sep);
        lemma_subrange_concat(s, q0, rec, sep);
        lemma_parse_record_round(s, i0, q0, jobs[k]);
        let e = q0 + rec.len();
        lemma_subrange_index(s, e, sep, 0);
        assert(is_ws(s[e]) && s[e + 1] == ']');
        assert(skip_ws(s, e + 1) == e + 1);
        lemma_skip_ws_run_to(s, e, e + 1);
        assert(seq![jobs[k]] =~= jobs.skip(k));
    }
}

/// Every record of the collection may be written to disk.
pub open spec fn all_storable(jobs: Seq<JobAppView>) -> bool {
    forall|m: int| 0 <= m < jobs.len() ==> storable(#[trigger] jobs[m])
}

/// Saving and loading round-trip: the rendered text of any storable
/// collection reads back as exactly that collection.
#[verifier::rlimit(100)]
pub proof fn lemma_save_load_round_trip(jobs: Seq<JobAppView>)
    requires
        all_storable(jobs),
    ensures
        (parse_jobs_text(encode_jobs_text(jobs)) == Some(jobs)),
{
    let s = encode_jobs_text(jobs);
    if jobs.len() == 0 {
        assert(s[0] == '[' && s[1] == ']');
        assert(skip_ws(s, 0) == 0);
        assert(expect_token(s, 0, '[') == Some(1int));
        assert(skip_ws(s, 1) == 1);
        assert(skip_ws(s, 2) == 2);
    } else {
        let u = encode_records_upto(jobs, jobs.len() as int);
        lemma_records_upto_from(jobs, jobs.len() as int);
        assert(encode_records_from(jobs, jobs.len() as int) =~= Seq::<char>::empty());
        assert(u + encode_records_from(jobs, jobs.len() as int) =~= u);
        let f0 = encode_records_from(jobs, 0);
        assert(u == f0);
        assert(s == seq!['[', '\n'] + u + seq![']']);
        assert(s.len() == u.len() + 3);
        lemma_upto_len(jobs, jobs.len() as int);
        assert(s[0] == '[' && s[1] == '\n');
        assert(s[2 + u.len() as int] == ']');
        assert forall|m: int| 0 <= m < u.len() implies s[2 + m] == f0[m] by {
            assert((seq!['[', '\n'] + u + seq![']'])[2 + m] == u[m]);
        }
        assert(s.subrange(2, 2 + f0.len() as int) =~= f0);
        assert(skip_ws(s, 0) == 0);
        assert(expect_token(s, 0, '[') == Some(1int));
        let rec = encode_record(jobs[0]);
        assert(f0 == rec + ((if 1 < jobs.len() {
            seq![',', '\n']
        } else {
            seq!['\n']
        }) + encode_records_from(jobs, 1)));
        lemma_subrange_concat(
            s,
            2,
            rec,
            (if 1 < jobs.len() {
                seq![',', '\n']
            } else {
                seq!['\n']
            }) + encode_records_from(jobs, 1),
        );
        let p0 = seq![' ', ' ', '{', '\n'];
        reveal(encode_record);
        lemma_subrange_concat(s, 2, p0, record_from_company(jobs[0]));
        lemma_subrange_index(s, 2, p0, 0);
        lemma_subrange_index(s, 2, p0, 1);
        lemma_subrange_index(s, 2, p0, 2);
        assert(s[2] == ' ' && s[3] == ' ' && s[4] == '{');
        assert(skip_ws(s, 4) == 4);
        lemma_skip_ws_run_to(s, 1, 4);
        assert(skip_ws(s, 1) == 4);
        assert(s[4] != ']');
        lemma_parse_list_round(s, 1, 2, jobs, 0, s.len() as nat);
        assert(jobs.skip(0) =~= jobs);
        assert(2 + f0.len() + 1 == s.len());
        assert(skip_ws(s, s.len() as int) == s.len());
    }
}

} // verus!
