//! The canonical JSON text of a vault.
//!
//! A vault is written as one JSON object without white space,
//!
//! ```text
//! {"entries":{"<name>":{"login":"..","password":"..","notes":null},..}}
//! ```
//!
//! with the records in the order of their names, an absent note as `null`,
//! and every string escaped in the shortest form: `\"`, `\\`, `\b`, `\t`,
//! `\n`, `\f`, `\r`, `\u00xx` for the other control characters, and all
//! other bytes of the UTF-8 encoding as they are. Reading accepts this form
//! and nothing else, so a text belongs to at most one vault.

use vstd::prelude::*;
use vstd::utf8::{decode_utf8, encode_utf8, valid_utf8};
use crate::keys::{rank_bytes, Rank};
use crate::model::{sorted, Entry, EntryView, Records, Vault};
use crate::primitives::text_from_utf8;

verus! {

/// `{"entries":{`
pub open spec fn head() -> Seq<u8> {
    seq![0x7Bu8, 0x22, 0x65, 0x6E, 0x74, 0x72, 0x69, 0x65, 0x73, 0x22, 0x3A, 0x7B]
}

/// `}}`
pub open spec fn tail() -> Seq<u8> {
    seq![0x7Du8, 0x7D]
}

/// `{"login":`
pub open spec fn login_label() -> Seq<u8> {
    seq![0x7Bu8, 0x22, 0x6C, 0x6F, 0x67, 0x69, 0x6E, 0x22, 0x3A]
}

/// `,"password":`
pub open spec fn password_label() -> Seq<u8> {
    seq![0x2Cu8, 0x22, 0x70, 0x61, 0x73, 0x73, 0x77, 0x6F, 0x72, 0x64, 0x22, 0x3A]
}

/// `,"notes":`
pub open spec fn notes_label() -> Seq<u8> {
    seq![0x2Cu8, 0x22, 0x6E, 0x6F, 0x74, 0x65, 0x73, 0x22, 0x3A]
}

/// `null`
pub open spec fn null() -> Seq<u8> {
    seq![0x6Eu8, 0x75, 0x6C, 0x6C]
}

/// The lower-case hexadecimal digit of a number below 16.
pub open spec fn hex_digit(n: int) -> u8 {
    if n < 10 {
        (0x30 + n) as u8
    } else {
        (0x57 + n) as u8
    }
}

/// How one byte of a string stands in JSON text.
pub open spec fn escaped_byte(b: u8) -> Seq<u8> {
    if b == 0x22 {
        seq![0x5Cu8, 0x22]
    } else if b == 0x5C {
        seq![0x5Cu8, 0x5C]
    } else if b == 0x08 {
        seq![0x5Cu8, 0x62]
    } else if b == 0x09 {
        seq![0x5Cu8, 0x74]
    } else if b == 0x0A {
        seq![0x5Cu8, 0x6E]
    } else if b == 0x0C {
        seq![0x5Cu8, 0x66]
    } else if b == 0x0D {
        seq![0x5Cu8, 0x72]
    } else if b < 0x20 {
        seq![0x5Cu8, 0x75, 0x30, 0x30, hex_digit(b as int / 16), hex_digit(b as int % 16)]
    } else {
        seq![b]
    }
}

/// How the bytes of a string stand in JSON text, between the quotes.
pub open spec fn escaped(bytes: Seq<u8>) -> Seq<u8>
    decreases bytes.len(),
{
    if bytes.len() == 0 {
        Seq::empty()
    } else {
        escaped_byte(bytes[0]) + escaped(bytes.skip(1))
    }
}

/// A text as a JSON string.
pub open spec fn quoted(text: Seq<char>) -> Seq<u8> {
    seq![0x22u8] + escaped(encode_utf8(text)) + seq![0x22u8]
}

/// A note as JSON: a string, or `null` where there is none.
pub open spec fn notes_json(notes: Option<Seq<char>>) -> Seq<u8> {
    match notes {
        Some(text) => quoted(text),
        None => null(),
    }
}

/// An entry as a JSON object.
pub open spec fn entry_json(entry: EntryView) -> Seq<u8> {
    login_label() + quoted(entry.login) + password_label() + quoted(entry.password)
        + notes_label() + notes_json(entry.notes) + seq![0x7Du8]
}

/// A record as a member of the object of entries.
pub open spec fn record_json(record: (Seq<char>, EntryView)) -> Seq<u8> {
    quoted(record.0) + seq![0x3Au8] + entry_json(record.1)
}

/// The members of the object of entries, with commas between them.
pub open spec fn records_json(records: Records) -> Seq<u8>
    decreases records.len(),
{
    if records.len() == 0 {
        Seq::empty()
    } else if records.len() == 1 {
        record_json(records[0])
    } else {
        record_json(records[0]) + seq![0x2Cu8] + records_json(records.skip(1))
    }
}

/// The canonical JSON text of the records of a vault.
pub open spec fn vault_json(records: Records) -> Seq<u8> {
    head() + records_json(records) + tail()
}

/// `bytes` is the canonical text of the sorted records `records`.
pub open spec fn is_json_of(bytes: Seq<u8>, records: Records) -> bool {
    sorted(records) && vault_json(records) == bytes
}

/// The records that a text stands for, if it is the canonical text of any.
pub open spec fn parsed(bytes: Seq<u8>) -> Option<Records> {
    if exists|records: Records| is_json_of(bytes, records) {
        Some(choose|records: Records| is_json_of(bytes, records))
    } else {
        None
    }
}

/// Escaping goes byte by byte, so it commutes with concatenation.
proof fn lemma_escaped_concat(a: Seq<u8>, b: Seq<u8>)
    ensures
        escaped(a + b) == escaped(a) + escaped(b),
    decreases a.len(),
{
    if a.len() == 0 {
        assert(a + b =~= b);
        assert(escaped(a) + escaped(b) =~= escaped(b));
    } else {
        assert((a + b).skip(1) =~= a.skip(1) + b);
        lemma_escaped_concat(a.skip(1), b);
        assert(escaped(a + b) =~= escaped(a) + escaped(b));
    }
}

/// The text of a list of records with one more record behind it.
proof fn lemma_records_json_push(records: Records, record: (Seq<char>, EntryView))
    ensures
        records_json(records.push(record)) == if records.len() == 0 {
            record_json(record)
        } else {
            records_json(records) + seq![0x2Cu8] + record_json(record)
        },
    decreases records.len(),
{
    let longer = records.push(record);
    if records.len() == 0 {
        assert(longer[0] == record);
    } else {
        assert(longer[0] == records[0]);
        assert(longer.skip(1) =~= records.skip(1).push(record));
        lemma_records_json_push(records.skip(1), record);
        if records.len() == 1 {
            assert(records_json(records.skip(1)) =~= Seq::<u8>::empty());
        }
        assert(records_json(longer) =~= records_json(records) + seq![0x2Cu8] + record_json(
            record,
        ));
    }
}

/// `{"entries":{`
fn head_bytes() -> (bytes: [u8; 12])
    ensures
        bytes@ == head(),
{
    let bytes: [u8; 12] = [0x7B, 0x22, 0x65, 0x6E, 0x74, 0x72, 0x69, 0x65, 0x73, 0x22, 0x3A, 0x7B];
    assert(bytes@ =~= head());
    bytes
}

/// `}}`
fn tail_bytes() -> (bytes: [u8; 2])
    ensures
        bytes@ == tail(),
{
    let bytes: [u8; 2] = [0x7D, 0x7D];
    assert(bytes@ =~= tail());
    bytes
}

/// `{"login":`
fn login_label_bytes() -> (bytes: [u8; 9])
    ensures
        bytes@ == login_label(),
{
    let bytes: [u8; 9] = [0x7B, 0x22, 0x6C, 0x6F, 0x67, 0x69, 0x6E, 0x22, 0x3A];
    assert(bytes@ =~= login_label());
    bytes
}

/// `,"password":`
fn password_label_bytes() -> (bytes: [u8; 12])
    ensures
        bytes@ == password_label(),
{
    let bytes: [u8; 12] = [0x2C, 0x22, 0x70, 0x61, 0x73, 0x73, 0x77, 0x6F, 0x72, 0x64, 0x22, 0x3A];
    assert(bytes@ =~= password_label());
    bytes
}

/// `,"notes":`
fn notes_label_bytes() -> (bytes: [u8; 9])
    ensures
        bytes@ == notes_label(),
{
    let bytes: [u8; 9] = [0x2C, 0x22, 0x6E, 0x6F, 0x74, 0x65, 0x73, 0x22, 0x3A];
    assert(bytes@ =~= notes_label());
    bytes
}

/// `null`
fn null_bytes() -> (bytes: [u8; 4])
    ensures
        bytes@ == null(),
{
    let bytes: [u8; 4] = [0x6E, 0x75, 0x6C, 0x6C];
    assert(bytes@ =~= null());
    bytes
}

/// Appends `part` to `out`.
fn put(out: &mut Vec<u8>, part: &[u8])
    ensures
        final(out)@ == old(out)@ + part@,
{
    out.extend_from_slice(part);
}

/// Appends a text to `out` as a JSON string.
fn put_quoted(out: &mut Vec<u8>, text: &str)
    ensures
        final(out)@ == old(out)@ + quoted(text@),
{
    let bytes = text.as_bytes();
    let ghost before = out@;
    out.push(0x22);
    let mut i: usize = 0;
    while i < bytes.len()
        invariant
            i <= bytes.len(),
            out@ == before + seq![0x22u8] + escaped(bytes@.take(i as int)),
        decreases bytes.len() - i,
    {
        let b = bytes[i];
        let ghost so_far = out@;
        if b == 0x22 {
            put(out, &[0x5C, 0x22]);
        } else if b == 0x5C {
            put(out, &[0x5C, 0x5C]);
        } else if b == 0x08 {
            put(out, &[0x5C, 0x62]);
        } else if b == 0x09 {
            put(out, &[0x5C, 0x74]);
        } else if b == 0x0A {
            put(out, &[0x5C, 0x6E]);
        } else if b == 0x0C {
            put(out, &[0x5C, 0x66]);
        } else if b == 0x0D {
            put(out, &[0x5C, 0x72]);
        } else if b < 0x20 {
            let high = hex_of(b / 16);
            let low = hex_of(b % 16);
            put(out, &[0x5C, 0x75, 0x30, 0x30, high, low]);
        } else {
            out.push(b);
        }
        proof {
            assert(out@ =~= so_far + escaped_byte(b));
            let taken = bytes@.take(i as int);
            assert(bytes@.take(i as int + 1) =~= taken + seq![b]);
            lemma_escaped_concat(taken, seq![b]);
            let one = seq![b];
            assert(one.skip(1) =~= Seq::<u8>::empty());
            assert(escaped(one.skip(1)) =~= Seq::<u8>::empty());
            assert(escaped(one) =~= escaped_byte(b));
        }
        i += 1;
    }
    out.push(0x22);
    proof {
        assert(bytes@.take(bytes@.len() as int) =~= bytes@);
        assert(out@ =~= before + quoted(text@));
    }
}

/// The lower-case hexadecimal digit of a number below 16.
fn hex_of(n: u8) -> (digit: u8)
    requires
        n < 16,
    ensures
        digit == hex_digit(n as int),
{
    if n < 10 {
        0x30 + n
    } else {
        0x57 + n
    }
}

/// Appends an entry to `out` as a JSON object.
fn put_entry(out: &mut Vec<u8>, entry: &Entry)
    ensures
        final(out)@ == old(out)@ + entry_json(entry@),
{
    let ghost before = out@;
    put(out, &login_label_bytes());
    put_quoted(out, entry.login.as_str());
    put(out, &password_label_bytes());
    put_quoted(out, entry.password.as_str());
    put(out, &notes_label_bytes());
    match &entry.notes {
        Some(text) => {
            put_quoted(out, text.as_str());
        },
        None => {
            put(out, &null_bytes());
        },
    }
    out.push(0x7D);
    assert(out@ =~= before + entry_json(entry@));
}

/// Writes the canonical JSON text of a vault.
pub fn vault_to_json(vault: &Vault) -> (text: Vec<u8>)
    ensures
        text@ == vault_json(vault.records()),
{
    let mut out: Vec<u8> = Vec::new();
    put(&mut out, &head_bytes());
    let n = vault.len();
    let mut i: usize = 0;
    while i < n
        invariant
            i <= n,
            n == vault.records().len(),
            out@ == head() + records_json(vault.records().take(i as int)),
        decreases n - i,
    {
        let ghost so_far = out@;
        let ghost done = vault.records().take(i as int);
        if i > 0 {
            out.push(0x2C);
        }
        match vault.record(i) {
            Some((name, entry)) => {
                put_quoted(&mut out, name.as_str());
                out.push(0x3A);
                put_entry(&mut out, entry);
                proof {
                    let record = (name@, entry@);
                    assert(vault.records().take(i as int + 1) =~= done.push(record));
                    lemma_records_json_push(done, record);
                    assert(out@ =~= head() + records_json(done.push(record)));
                }
            },
            None => {},
        }
        i += 1;
    }
    put(&mut out, &tail_bytes());
    proof {
        assert(vault.records().take(n as int) =~= vault.records());
        assert(out@ =~= vault_json(vault.records()));
    }
    out
}

/// `part` stands in `s` at position `pos`.
#[verifier::opaque]
spec fn has_at(s: Seq<u8>, pos: int, part: Seq<u8>) -> bool {
    0 <= pos && pos + part.len() <= s.len() && s.subrange(pos, pos + part.len()) == part
}

/// Two parts stand one behind the other exactly when their concatenation
/// stands there.
proof fn lemma_has_at_concat(s: Seq<u8>, pos: int, a: Seq<u8>, b: Seq<u8>)
    ensures
        has_at(s, pos, a + b) <==> has_at(s, pos, a) && has_at(s, pos + a.len(), b),
{
    reveal(has_at);
    let mid = pos + a.len();
    let end = mid + b.len();
    if has_at(s, pos, a + b) {
        let whole = s.subrange(pos, end);
        assert(s.subrange(pos, mid) =~= whole.subrange(0, a.len() as int));
        assert(whole.subrange(0, a.len() as int) =~= a);
        assert(s.subrange(mid, end) =~= whole.subrange(a.len() as int, (a + b).len() as int));
        assert(whole.subrange(a.len() as int, (a + b).len() as int) =~= b);
    }
    if has_at(s, pos, a) && has_at(s, mid, b) {
        assert(s.subrange(pos, end) =~= s.subrange(pos, mid) + s.subrange(mid, end));
    }
}

/// A part that stands in `s` gives `s` its bytes.
proof fn lemma_has_at_byte(s: Seq<u8>, pos: int, part: Seq<u8>, k: int)
    requires
        has_at(s, pos, part),
        0 <= k < part.len(),
    ensures
        0 <= pos,
        pos + part.len() <= s.len(),
        s[pos + k] == part[k],
{
    reveal(has_at);
    assert(s.subrange(pos, pos + part.len())[k] == s[pos + k]);
}

/// A part that stands in `s` lies inside `s`.
proof fn lemma_has_at_bounds(s: Seq<u8>, pos: int, part: Seq<u8>)
    requires
        has_at(s, pos, part),
    ensures
        0 <= pos,
        pos + part.len() <= s.len(),
{
    reveal(has_at);
}

/// A text stands at its own start.
proof fn lemma_has_at_whole(s: Seq<u8>)
    ensures
        has_at(s, 0, s),
{
    reveal(has_at);
    assert(s.subrange(0, s.len() as int) =~= s);
}

/// What a lower-case hexadecimal digit counts.
spec fn hex_value(digit: u8) -> Option<int> {
    if 0x30 <= digit <= 0x39 {
        Some(digit - 0x30)
    } else if 0x61 <= digit <= 0x66 {
        Some(digit - 0x57)
    } else {
        None
    }
}

/// The byte that the text at `pos` stands for, and where the next one
/// starts. `pos` is inside `s`, and no quote is there.
spec fn scan_unit(s: Seq<u8>, pos: int) -> Option<(u8, int)> {
    if s[pos] == 0x5C {
        if pos + 1 >= s.len() {
            None
        } else if s[pos + 1] == 0x22 {
            Some((0x22u8, pos + 2))
        } else if s[pos + 1] == 0x5C {
            Some((0x5Cu8, pos + 2))
        } else if s[pos + 1] == 0x62 {
            Some((0x08u8, pos + 2))
        } else if s[pos + 1] == 0x74 {
            Some((0x09u8, pos + 2))
        } else if s[pos + 1] == 0x6E {
            Some((0x0Au8, pos + 2))
        } else if s[pos + 1] == 0x66 {
            Some((0x0Cu8, pos + 2))
        } else if s[pos + 1] == 0x72 {
            Some((0x0Du8, pos + 2))
        } else if s[pos + 1] == 0x75 && pos + 5 < s.len() && s[pos + 2] == 0x30 && s[pos + 3]
            == 0x30 {
            match (hex_value(s[pos + 4]), hex_value(s[pos + 5])) {
                (Some(high), Some(low)) => Some(((16 * high + low) as u8, pos + 6)),
                _ => None,
            }
        } else {
            None
        }
    } else if s[pos] < 0x20 {
        None
    } else {
        Some((s[pos], pos + 1))
    }
}

/// `front` before what a scan found.
spec fn glue(front: Seq<u8>, found: Option<(Seq<u8>, int)>) -> Option<(Seq<u8>, int)> {
    match found {
        Some((more, end)) => Some((front + more, end)),
        None => None,
    }
}

/// The bytes of the string whose text starts at `pos`, behind the opening
/// quote, and the position behind its closing quote.
spec fn scan_body(s: Seq<u8>, pos: int) -> Option<(Seq<u8>, int)>
    decreases s.len() - pos,
{
    if pos < 0 || pos >= s.len() {
        None
    } else if s[pos] == 0x22 {
        Some((Seq::empty(), pos + 1))
    } else {
        match scan_unit(s, pos) {
            None => None,
            Some((b, next)) => glue(seq![b], scan_body(s, next)),
        }
    }
}

/// The string that starts at `pos`, and the position behind it.
spec fn scan_text(s: Seq<u8>, pos: int) -> Option<(Seq<char>, int)> {
    if 0 <= pos < s.len() && s[pos] == 0x22 {
        match scan_body(s, pos + 1) {
            Some((raw, end)) => if valid_utf8(raw) {
                Some((decode_utf8(raw), end))
            } else {
                None
            },
            None => None,
        }
    } else {
        None
    }
}

/// The note that starts at `pos`, and the position behind it.
spec fn scan_notes(s: Seq<u8>, pos: int) -> Option<(Option<Seq<char>>, int)> {
    if has_at(s, pos, null()) {
        Some((None, pos + null().len()))
    } else {
        match scan_text(s, pos) {
            Some((text, end)) => Some((Some(text), end)),
            None => None,
        }
    }
}

/// The entry that starts at `pos`, and the position behind it.
spec fn scan_entry(s: Seq<u8>, pos: int) -> Option<(EntryView, int)> {
    if !has_at(s, pos, login_label()) {
        None
    } else {
        match scan_text(s, pos + login_label().len()) {
            None => None,
            Some((login, second)) => if !has_at(s, second, password_label()) {
                None
            } else {
                match scan_text(s, second + password_label().len()) {
                    None => None,
                    Some((password, third)) => if !has_at(s, third, notes_label()) {
                        None
                    } else {
                        match scan_notes(s, third + notes_label().len()) {
                            None => None,
                            Some((notes, close)) => if has_at(s, close, seq![0x7Du8]) {
                                Some((EntryView { login, password, notes }, close + 1))
                            } else {
                                None
                            },
                        }
                    },
                }
            },
        }
    }
}

/// The record that starts at `pos`, and the position behind it.
spec fn scan_record(s: Seq<u8>, pos: int) -> Option<((Seq<char>, EntryView), int)> {
    match scan_text(s, pos) {
        None => None,
        Some((name, colon)) => if has_at(s, colon, seq![0x3Au8]) {
            match scan_entry(s, colon + 1) {
                Some((entry, end)) => Some(((name, entry), end)),
                None => None,
            }
        } else {
            None
        },
    }
}

/// `front` before the records that a scan found.
spec fn join(front: Records, found: Option<(Records, int)>) -> Option<(Records, int)> {
    match found {
        Some((more, end)) => Some((front + more, end)),
        None => None,
    }
}

/// The records that start at `pos`, one or more with commas between them,
/// and the position behind the last.
spec fn scan_records(s: Seq<u8>, pos: int) -> Option<(Records, int)>
    decreases s.len() - pos,
{
    match scan_record(s, pos) {
        None => None,
        Some((record, next)) => if pos < next < s.len() && s[next] == 0x2C {
            join(seq![record], scan_records(s, next + 1))
        } else {
            Some((seq![record], next))
        },
    }
}

/// The records of the text `s`, read from its first byte to its last.
spec fn scan_vault(s: Seq<u8>) -> Option<Records> {
    if !has_at(s, 0, head()) {
        None
    } else if has_at(s, head().len() as int, tail()) && s.len() == head().len() + tail().len() {
        Some(Seq::empty())
    } else {
        match scan_records(s, head().len() as int) {
            Some((records, end)) => if has_at(s, end, tail()) && s.len() == end + tail().len() {
                Some(records)
            } else {
                None
            },
            None => None,
        }
    }
}

/// Reading the text of one byte gives the byte.
proof fn lemma_scan_unit(s: Seq<u8>, pos: int, b: u8)
    requires
        has_at(s, pos, escaped_byte(b)),
    ensures
        scan_unit(s, pos) == Some((b, pos + escaped_byte(b).len())),
        s[pos] != 0x22,
{
    let unit = escaped_byte(b);
    lemma_has_at_byte(s, pos, unit, 0);
    if unit.len() >= 2 {
        lemma_has_at_byte(s, pos, unit, 1);
    }
    if unit.len() == 6 {
        lemma_has_at_byte(s, pos, unit, 2);
        lemma_has_at_byte(s, pos, unit, 3);
        lemma_has_at_byte(s, pos, unit, 4);
        lemma_has_at_byte(s, pos, unit, 5);
        let high = b as int / 16;
        let low = b as int % 16;
        assert(hex_value(hex_digit(high)) == Some(high));
        assert(hex_value(hex_digit(low)) == Some(low));
        assert(16 * high + low == b);
    }
}

/// Reading the text of a string's bytes, up to the closing quote, gives the
/// bytes.
proof fn lemma_scan_body(s: Seq<u8>, pos: int, raw: Seq<u8>)
    requires
        has_at(s, pos, escaped(raw) + seq![0x22u8]),
    ensures
        scan_body(s, pos) == Some((raw, pos + escaped(raw).len() + 1)),
    decreases raw.len(),
{
    if raw.len() == 0 {
        lemma_has_at_byte(s, pos, escaped(raw) + seq![0x22u8], 0);
        assert(raw =~= Seq::<u8>::empty());
    } else {
        let unit = escaped_byte(raw[0]);
        let rest = escaped(raw.skip(1)) + seq![0x22u8];
        assert(escaped(raw) + seq![0x22u8] =~= unit + rest);
        lemma_has_at_concat(s, pos, unit, rest);
        lemma_has_at_bounds(s, pos, unit);
        lemma_scan_unit(s, pos, raw[0]);
        lemma_scan_body(s, pos + unit.len(), raw.skip(1));
        assert(seq![raw[0]] + raw.skip(1) =~= raw);
    }
}

/// Reading a quoted text gives the text.
proof fn lemma_scan_text(s: Seq<u8>, pos: int, text: Seq<char>)
    requires
        has_at(s, pos, quoted(text)),
    ensures
        scan_text(s, pos) == Some((text, pos + quoted(text).len())),
{
    let raw = encode_utf8(text);
    let body = escaped(raw) + seq![0x22u8];
    assert(quoted(text) =~= seq![0x22u8] + body);
    lemma_has_at_concat(s, pos, seq![0x22u8], body);
    lemma_has_at_byte(s, pos, seq![0x22u8], 0);
    lemma_scan_body(s, pos + 1, raw);
    vstd::utf8::encode_utf8_valid_utf8(text);
    vstd::utf8::encode_utf8_decode_utf8(text);
}

/// Reading the text of a note gives the note.
proof fn lemma_scan_notes(s: Seq<u8>, pos: int, notes: Option<Seq<char>>)
    requires
        has_at(s, pos, notes_json(notes)),
    ensures
        scan_notes(s, pos) == Some((notes, pos + notes_json(notes).len())),
{
    match notes {
        Some(text) => {
            lemma_has_at_byte(s, pos, quoted(text), 0);
            if has_at(s, pos, null()) {
                lemma_has_at_byte(s, pos, null(), 0);
            }
            lemma_scan_text(s, pos, text);
        },
        None => {},
    }
}

/// Reading the text of an entry gives the entry.
proof fn lemma_scan_entry(s: Seq<u8>, pos: int, entry: EntryView)
    requires
        has_at(s, pos, entry_json(entry)),
    ensures
        scan_entry(s, pos) == Some((entry, pos + entry_json(entry).len())),
{
    let a = login_label();
    let b = quoted(entry.login);
    let c = password_label();
    let d = quoted(entry.password);
    let e = notes_label();
    let f = notes_json(entry.notes);
    let g = seq![0x7Du8];
    lemma_has_at_concat(s, pos, a + b + c + d + e + f, g);
    lemma_has_at_concat(s, pos, a + b + c + d + e, f);
    lemma_has_at_concat(s, pos, a + b + c + d, e);
    lemma_has_at_concat(s, pos, a + b + c, d);
    lemma_has_at_concat(s, pos, a + b, c);
    lemma_has_at_concat(s, pos, a, b);
    let second = pos + a.len() + b.len();
    let third = second + c.len() + d.len();
    lemma_scan_text(s, pos + a.len(), entry.login);
    lemma_scan_text(s, second + c.len(), entry.password);
    lemma_scan_notes(s, third + e.len(), entry.notes);
}

/// Reading the text of a record gives the record.
proof fn lemma_scan_record(s: Seq<u8>, pos: int, record: (Seq<char>, EntryView))
    requires
        has_at(s, pos, record_json(record)),
    ensures
        scan_record(s, pos) == Some((record, pos + record_json(record).len())),
{
    let a = quoted(record.0);
    let b = seq![0x3Au8];
    let c = entry_json(record.1);
    lemma_has_at_concat(s, pos, a + b, c);
    lemma_has_at_concat(s, pos, a, b);
    lemma_scan_text(s, pos, record.0);
    lemma_scan_entry(s, pos + a.len() + b.len(), record.1);
}

/// Reading the text of one or more records, where no comma follows it,
/// gives the records.
proof fn lemma_scan_records(s: Seq<u8>, pos: int, records: Records)
    requires
        records.len() > 0,
        has_at(s, pos, records_json(records)),
        0 <= pos + records_json(records).len() < s.len() ==> s[pos + records_json(
            records,
        ).len()] != 0x2C,
    ensures
        scan_records(s, pos) == Some((records, pos + records_json(records).len())),
    decreases records.len(),
{
    let first = record_json(records[0]);
    if records.len() == 1 {
        lemma_scan_record(s, pos, records[0]);
        assert(seq![records[0]] =~= records);
    } else {
        let comma = seq![0x2Cu8];
        let rest = records_json(records.skip(1));
        lemma_has_at_concat(s, pos, first + comma, rest);
        lemma_has_at_concat(s, pos, first, comma);
        lemma_scan_record(s, pos, records[0]);
        lemma_has_at_byte(s, pos + first.len(), comma, 0);
        lemma_first_byte(records.skip(1));
        lemma_scan_records(s, pos + first.len() + 1, records.skip(1));
        assert(seq![records[0]] + records.skip(1) =~= records);
    }
}

/// The text of one or more records starts with a quote.
proof fn lemma_first_byte(records: Records)
    requires
        records.len() > 0,
    ensures
        records_json(records).len() > 0,
        records_json(records)[0] == 0x22,
{
}

/// Reading the canonical text of a list of records gives the list.
proof fn lemma_scan_vault(records: Records)
    ensures
        scan_vault(vault_json(records)) == Some(records),
{
    let s = vault_json(records);
    let body = records_json(records);
    lemma_has_at_whole(s);
    lemma_has_at_concat(s, 0, head() + body, tail());
    lemma_has_at_concat(s, 0, head(), body);
    let start = head().len() as int;
    assert(s.len() == start + body.len() + tail().len());
    if records.len() == 0 {
        assert(records =~= Seq::empty());
        assert(body =~= Seq::<u8>::empty());
    } else {
        lemma_first_byte(records);
        lemma_has_at_byte(s, start, body, 0);
        if has_at(s, start, tail()) {
            lemma_has_at_byte(s, start, tail(), 0);
        }
        lemma_has_at_byte(s, start + body.len(), tail(), 0);
        lemma_scan_records(s, start, records);
    }
}

/// Two lists of records with the same canonical text are the same list.
pub proof fn lemma_vault_json_injective(a: Records, b: Records)
    requires
        vault_json(a) == vault_json(b),
    ensures
        a == b,
{
    lemma_scan_vault(a);
    lemma_scan_vault(b);
}

/// Reading undoes writing: the canonical text of sorted records stands for
/// those records and for no others.
pub proof fn lemma_parsed_vault_json(records: Records)
    requires
        sorted(records),
    ensures
        parsed(vault_json(records)) == Some(records),
{
    let text = vault_json(records);
    assert(is_json_of(text, records));
    let found = choose|found: Records| is_json_of(text, found);
    lemma_vault_json_injective(found, records);
}

/// Whether `part` stands in `input` at `pos`.
fn starts(input: &[u8], pos: usize, part: &[u8]) -> (ok: bool)
    requires
        pos <= input.len(),
    ensures
        ok == has_at(input@, pos as int, part@),
        ok ==> pos + part@.len() <= input@.len(),
{
    reveal(has_at);
    if part.len() > input.len() - pos {
        return false;
    }
    let mut k: usize = 0;
    while k < part.len()
        invariant
            k <= part.len(),
            pos + part.len() <= input.len(),
            forall|j: int| 0 <= j < k ==> input@[pos + j] == part@[j],
        decreases part.len() - k,
    {
        if input[pos + k] != part[k] {
            proof {
                if has_at(input@, pos as int, part@) {
                    lemma_has_at_byte(input@, pos as int, part@, k as int);
                }
            }
            return false;
        }
        k += 1;
    }
    assert(input@.subrange(pos as int, pos + part.len()) =~= part@);
    true
}

/// Whether the byte `b` stands in `input` at `pos`.
fn starts_byte(input: &[u8], pos: usize, b: u8) -> (ok: bool)
    requires
        pos <= input.len(),
    ensures
        ok == has_at(input@, pos as int, seq![b]),
        ok ==> pos < input@.len(),
{
    let bytes: [u8; 1] = [b];
    assert(bytes@ =~= seq![b]);
    starts(input, pos, &bytes)
}

/// What a lower-case hexadecimal digit counts.
fn read_hex(digit: u8) -> (r: Option<u8>)
    ensures
        match r {
            Some(value) => hex_value(digit) == Some(value as int),
            None => hex_value(digit) is None,
        },
{
    if 0x30 <= digit && digit <= 0x39 {
        Some(digit - 0x30)
    } else if 0x61 <= digit && digit <= 0x66 {
        Some(digit - 0x57)
    } else {
        None
    }
}

/// Reads the text of one byte of a string.
fn read_unit(input: &[u8], pos: usize) -> (r: Option<(u8, usize)>)
    requires
        pos < input.len(),
    ensures
        match r {
            Some((b, next)) => scan_unit(input@, pos as int) == Some((b, next as int)) && pos
                < next <= input.len(),
            None => scan_unit(input@, pos as int) is None,
        },
{
    let b = input[pos];
    if b == 0x5C {
        if input.len() - pos < 2 {
            return None;
        }
        let escape = input[pos + 1];
        if escape == 0x22 {
            Some((0x22, pos + 2))
        } else if escape == 0x5C {
            Some((0x5C, pos + 2))
        } else if escape == 0x62 {
            Some((0x08, pos + 2))
        } else if escape == 0x74 {
            Some((0x09, pos + 2))
        } else if escape == 0x6E {
            Some((0x0A, pos + 2))
        } else if escape == 0x66 {
            Some((0x0C, pos + 2))
        } else if escape == 0x72 {
            Some((0x0D, pos + 2))
        } else if escape == 0x75 && input.len() - pos >= 6 && input[pos + 2] == 0x30 && input[pos
            + 3] == 0x30 {
            match (read_hex(input[pos + 4]), read_hex(input[pos + 5])) {
                (Some(high), Some(low)) => Some((16 * high + low, pos + 6)),
                _ => None,
            }
        } else {
            None
        }
    } else if b < 0x20 {
        None
    } else {
        Some((b, pos + 1))
    }
}

/// Reads the bytes of a string from behind its opening quote.
fn read_body(input: &[u8], start: usize) -> (r: Option<(Vec<u8>, usize)>)
    requires
        start <= input.len(),
    ensures
        match r {
            Some((raw, end)) => scan_body(input@, start as int) == Some((raw@, end as int))
                && start < end <= input.len(),
            None => scan_body(input@, start as int) is None,
        },
{
    let mut raw: Vec<u8> = Vec::new();
    let mut i: usize = start;
    proof {
        lemma_glue_empty(scan_body(input@, start as int));
    }
    while i < input.len()
        invariant
            start <= i <= input.len(),
            scan_body(input@, start as int) == glue(raw@, scan_body(input@, i as int)),
        decreases input.len() - i,
    {
        if input[i] == 0x22 {
            assert(raw@ + Seq::<u8>::empty() =~= raw@);
            return Some((raw, i + 1));
        }
        match read_unit(input, i) {
            None => {
                return None;
            },
            Some((b, next)) => {
                proof {
                    lemma_glue_push(raw@, b, scan_body(input@, next as int));
                }
                raw.push(b);
                i = next;
            },
        }
    }
    None
}

/// Nothing before what a scan found leaves it as it is.
proof fn lemma_glue_empty(found: Option<(Seq<u8>, int)>)
    ensures
        glue(Seq::empty(), found) == found,
{
    match found {
        Some((more, end)) => {
            assert(Seq::<u8>::empty() + more =~= more);
        },
        None => {},
    }
}

/// A byte may be counted to what stands before a find or to the find.
proof fn lemma_glue_push(front: Seq<u8>, b: u8, found: Option<(Seq<u8>, int)>)
    ensures
        glue(front, glue(seq![b], found)) == glue(front.push(b), found),
{
    match found {
        Some((more, end)) => {
            assert(front + (seq![b] + more) =~= front.push(b) + more);
        },
        None => {},
    }
}

/// Reads a quoted text.
fn read_text(input: &[u8], pos: usize) -> (r: Option<(String, usize)>)
    requires
        pos <= input.len(),
    ensures
        match r {
            Some((text, end)) => scan_text(input@, pos as int) == Some((text@, end as int))
                && pos < end <= input.len(),
            None => scan_text(input@, pos as int) is None,
        },
{
    if pos >= input.len() || input[pos] != 0x22 {
        return None;
    }
    match read_body(input, pos + 1) {
        None => None,
        Some((raw, end)) => match text_from_utf8(raw) {
            Some(text) => {
                proof {
                    vstd::utf8::encode_utf8_decode_utf8(text@);
                }
                Some((text, end))
            },
            None => None,
        },
    }
}

/// Reads a note: `null` or a quoted text.
fn read_notes(input: &[u8], pos: usize) -> (r: Option<(Option<String>, usize)>)
    requires
        pos <= input.len(),
    ensures
        match r {
            Some((notes, end)) => scan_notes(input@, pos as int) == Some(
                (
                    match notes {
                        Some(text) => Some(text@),
                        None => None,
                    },
                    end as int,
                ),
            ) && pos < end <= input.len(),
            None => scan_notes(input@, pos as int) is None,
        },
{
    let null = null_bytes();
    if starts(input, pos, &null) {
        Some((None, pos + null.len()))
    } else {
        match read_text(input, pos) {
            Some((text, end)) => Some((Some(text), end)),
            None => None,
        }
    }
}

/// Reads an entry.
fn read_entry(input: &[u8], pos: usize) -> (r: Option<(Entry, usize)>)
    requires
        pos <= input.len(),
    ensures
        match r {
            Some((entry, end)) => scan_entry(input@, pos as int) == Some((entry@, end as int))
                && pos < end <= input.len(),
            None => scan_entry(input@, pos as int) is None,
        },
{
    let label = login_label_bytes();
    if !starts(input, pos, &label) {
        return None;
    }
    let (login, second) = match read_text(input, pos + label.len()) {
        Some(found) => found,
        None => {
            return None;
        },
    };
    let label = password_label_bytes();
    if !starts(input, second, &label) {
        return None;
    }
    let (password, third) = match read_text(input, second + label.len()) {
        Some(found) => found,
        None => {
            return None;
        },
    };
    let label = notes_label_bytes();
    if !starts(input, third, &label) {
        return None;
    }
    let (notes, close) = match read_notes(input, third + label.len()) {
        Some(found) => found,
        None => {
            return None;
        },
    };
    if !starts_byte(input, close, 0x7D) {
        return None;
    }
    Some((Entry { login, password, notes }, close + 1))
}

/// Reads a record: a name, a colon and an entry.
fn read_record(input: &[u8], pos: usize) -> (r: Option<(String, Entry, usize)>)
    requires
        pos <= input.len(),
    ensures
        match r {
            Some((name, entry, end)) => scan_record(input@, pos as int) == Some(
                ((name@, entry@), end as int),
            ) && pos < end <= input.len(),
            None => scan_record(input@, pos as int) is None,
        },
{
    let (name, colon) = match read_text(input, pos) {
        Some(found) => found,
        None => {
            return None;
        },
    };
    if !starts_byte(input, colon, 0x3A) {
        return None;
    }
    match read_entry(input, colon + 1) {
        Some((entry, end)) => Some((name, entry, end)),
        None => None,
    }
}

/// Reads one or more records into a vault, and refuses them where their
/// names do not rise.
fn read_records(input: &[u8], start: usize) -> (r: Option<(Vault, usize)>)
    requires
        start <= input.len(),
    ensures
        match scan_records(input@, start as int) {
            Some((records, end)) => if sorted(records) {
                r matches Some((vault, stop)) && vault.records() == records && stop == end && stop
                    <= input.len()
            } else {
                r is None
            },
            None => r is None,
        },
{
    let mut vault = Vault::new();
    let mut pos: usize = start;
    proof {
        lemma_join_empty(scan_records(input@, start as int));
    }
    loop
        invariant
            start <= pos <= input.len(),
            scan_records(input@, start as int) == join(
                vault.records(),
                scan_records(input@, pos as int),
            ),
        decreases input.len() - pos,
    {
        let ghost before = vault.records();
        let (name, entry, next) = match read_record(input, pos) {
            Some(found) => found,
            None => {
                return None;
            },
        };
        let ghost record = (name@, entry@);
        let more = next < input.len() && input[next] == 0x2C;
        let ghost rest = if more {
            scan_records(input@, next + 1)
        } else {
            Some((Seq::<(Seq<char>, EntryView)>::empty(), next as int))
        };
        proof {
            lemma_join_empty(rest);
            lemma_join_push(before, record, rest);
            if !more {
                assert(seq![record] + Seq::<(Seq<char>, EntryView)>::empty() =~= seq![record]);
            }
            assert(scan_records(input@, start as int) == join(before.push(record), rest));
        }
        if !vault.append(name, entry) {
            proof {
                match rest {
                    Some((tail_records, end)) => {
                        let all = before.push(record) + tail_records;
                        if sorted(all) {
                            let n = before.len() as int;
                            assert(all[n - 1] == before[n - 1]);
                            assert(all[n] == record);
                            assert(crate::keys::name_before(all[n - 1].0, all[n].0));
                        }
                    },
                    None => {},
                }
            }
            return None;
        }
        if more {
            pos = next + 1;
        } else {
            proof {
                use_type_invariant(&vault);
                assert(before.push(record) + Seq::<(Seq<char>, EntryView)>::empty()
                    =~= before.push(record));
            }
            return Some((vault, next));
        }
    }
}

/// Nothing before the records that a scan found leaves them as they are.
proof fn lemma_join_empty(found: Option<(Records, int)>)
    ensures
        join(Seq::empty(), found) == found,
{
    match found {
        Some((more, end)) => {
            assert(Seq::<(Seq<char>, EntryView)>::empty() + more =~= more);
        },
        None => {},
    }
}

/// A record may be counted to what stands before a find or to the find.
proof fn lemma_join_push(front: Records, record: (Seq<char>, EntryView), found: Option<
    (Records, int),
>)
    ensures
        join(front, join(seq![record], found)) == join(front.push(record), found),
{
    match found {
        Some((more, end)) => {
            assert(front + (seq![record] + more) =~= front.push(record) + more);
        },
        None => {},
    }
}

/// Reads a whole text into a vault.
fn read_vault(input: &[u8]) -> (r: Option<Vault>)
    ensures
        match scan_vault(input@) {
            Some(records) => if sorted(records) {
                r matches Some(vault) && vault.records() == records
            } else {
                r is None
            },
            None => r is None,
        },
{
    let head = head_bytes();
    let tail = tail_bytes();
    if !starts(input, 0, &head) {
        return None;
    }
    if input.len() == head.len() + tail.len() && starts(input, head.len(), &tail) {
        return Some(Vault::new());
    }
    match read_records(input, head.len()) {
        Some((vault, end)) => {
            if input.len() - end == tail.len() && starts(input, end, &tail) {
                Some(vault)
            } else {
                None
            }
        },
        None => None,
    }
}

/// Reads the canonical JSON text of a vault. A text that is not the
/// canonical text of any vault is refused.
pub fn vault_from_json(input: &[u8]) -> (r: Option<Vault>)
    ensures
        match r {
            Some(vault) => parsed(input@) == Some(vault.records()),
            None => parsed(input@) is None,
        },
{
    proof {
        assert forall|records: Records| is_json_of(input@, records) implies scan_vault(input@)
            == Some(records) by {
            lemma_scan_vault(records);
        }
    }
    match read_vault(input) {
        Some(vault) => {
            let text = vault_to_json(&vault);
            match rank_bytes(text.as_slice(), input) {
                Rank::Same => {
                    proof {
                        use_type_invariant(&vault);
                        lemma_parsed_vault_json(vault.records());
                    }
                    Some(vault)
                },
                _ => None,
            }
        },
        None => None,
    }
}

} // verus!
