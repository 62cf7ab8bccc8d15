use vstd::prelude::*;

use crate::entry::{Entry, EntryModel};
use crate::stats::Stats;

verus! {

/// Relies on std's `String::push`: appends the given character to the end
/// of the string.
#[verifier::external_body]
fn push_char(s: &mut String, c: char)
    ensures
        final(s)@ == old(s)@.push(c),
{
    s.push(c);
}

/// The lower-case hexadecimal digit for a value below sixteen.
pub open spec fn hex_digit(n: nat) -> char {
    if n == 0 {
        '0'
    } else if n == 1 {
        '1'
    } else if n == 2 {
        '2'
    } else if n == 3 {
        '3'
    } else if n == 4 {
        '4'
    } else if n == 5 {
        '5'
    } else if n == 6 {
        '6'
    } else if n == 7 {
        '7'
    } else if n == 8 {
        '8'
    } else if n == 9 {
        '9'
    } else if n == 10 {
        'a'
    } else if n == 11 {
        'b'
    } else if n == 12 {
        'c'
    } else if n == 13 {
        'd'
    } else if n == 14 {
        'e'
    } else {
        'f'
    }
}

fn hex_digit_char(n: u32) -> (c: char)
    requires
        n < 16,
    ensures
        c == hex_digit(n as nat),
{
    if n == 0 {
        '0'
    } else if n == 1 {
        '1'
    } else if n == 2 {
        '2'
    } else if n == 3 {
        '3'
    } else if n == 4 {
        '4'
    } else if n == 5 {
        '5'
    } else if n == 6 {
        '6'
    } else if n == 7 {
        '7'
    } else if n == 8 {
        '8'
    } else if n == 9 {
        '9'
    } else if n == 10 {
        'a'
    } else if n == 11 {
        'b'
    } else if n == 12 {
        'c'
    } else if n == 13 {
        'd'
    } else if n == 14 {
        'e'
    } else {
        'f'
    }
}

/// The decimal digit for a value below ten.
pub open spec fn dec_digit(n: nat) -> char {
    hex_digit(n)
}

/// The usual decimal rendering of a number, most significant digit first,
/// with no leading zeros (zero itself renders as one digit).
pub open spec fn dec_rep(n: nat) -> Seq<char>
    decreases n,
{
    if n < 10 {
        seq![dec_digit(n)]
    } else {
        dec_rep(n / 10).push(dec_digit(n % 10))
    }
}

/// Decimal rendering of a counter value.
pub fn u64_to_dec(n: u64) -> (r: String)
    ensures
        r@ == dec_rep(n as nat),
    decreases n,
{
    if n < 10 {
        let mut s = String::new();
        push_char(&mut s, hex_digit_char(n as u32));
        proof {
            assert(s@ =~= dec_rep(n as nat));
        }
        s
    } else {
        let mut s = u64_to_dec(n / 10);
        push_char(&mut s, hex_digit_char((n % 10) as u32));
        proof {
            assert(s@ =~= dec_rep(n as nat));
        }
        s
    }
}

/// How one character appears inside a JSON string: quote and backslash get
/// a backslash escape, the named control characters their short escapes,
/// any other control character a `\u00..` escape, and everything else
/// stands as itself.
pub open spec fn json_escape_char(c: char) -> Seq<char> {
    if c == '"' {
        seq!['\\', '"']
    } else if c == '\\' {
        seq!['\\', '\\']
    } else if c == '\u{8}' {
        seq!['\\', 'b']
    } else if c == '\t' {
        seq!['\\', 't']
    } else if c == '\n' {
        seq!['\\', 'n']
    } else if c == '\u{c}' {
        seq!['\\', 'f']
    } else if c == '\r' {
        seq!['\\', 'r']
    } else if (c as u32) < 0x20 {
        seq!['\\', 'u', '0', '0', hex_digit((c as u32 / 16) as nat), hex_digit((c as u32 % 16) as nat)]
    } else {
        seq![c]
    }
}

/// A whole character sequence escaped for JSON.
pub open spec fn json_escaped(s: Seq<char>) -> Seq<char>
    decreases s.len(),
{
    if s.len() == 0 {
        Seq::<char>::empty()
    } else {
        json_escaped(s.drop_last()) + json_escape_char(s.last())
    }
}

/// A JSON string literal: the escaped characters between double quotes.
pub open spec fn json_string_of(s: Seq<char>) -> Seq<char> {
    "\""@ + json_escaped(s) + "\""@
}

/// Append the escaped form of `s` to `out`.
fn write_escaped(out: &mut String, s: &String)
    ensures
        final(out)@ == old(out)@ + json_escaped(s@),
{
    let n = s.as_str().unicode_len();
    let mut i: usize = 0;
    proof {
        assert(s@.subrange(0, 0) =~= Seq::<char>::empty());
        assert(out@ =~= out@ + json_escaped(s@.subrange(0, 0)));
    }
    while i < n
        invariant
            i <= n,
            n == s@.len(),
            out@ == old(out)@ + json_escaped(s@.subrange(0, i as int)),
        decreases n - i,
    {
        let c = s.as_str().get_char(i);
        if c == '"' {
            out.append("\\\"");
            proof {
                reveal_strlit("\\\"");
                assert("\\\""@ =~= json_escape_char(c));
            }
        } else if c == '\\' {
            out.append("\\\\");
            proof {
                reveal_strlit("\\\\");
                assert("\\\\"@ =~= json_escape_char(c));
            }
        } else if c == '\u{8}' {
            out.append("\\b");
            proof {
                reveal_strlit("\\b");
                assert("\\b"@ =~= json_escape_char(c));
            }
        } else if c == '\t' {
            out.append("\\t");
            proof {
                reveal_strlit("\\t");
                assert("\\t"@ =~= json_escape_char(c));
            }
        } else if c == '\n' {
            out.append("\\n");
            proof {
                reveal_strlit("\\n");
                assert("\\n"@ =~= json_escape_char(c));
            }
        } else if c == '\u{c}' {
            out.append("\\f");
            proof {
                reveal_strlit("\\f");
                assert("\\f"@ =~= json_escape_char(c));
            }
        } else if c == '\r' {
            out.append("\\r");
            proof {
                reveal_strlit("\\r");
                assert("\\r"@ =~= json_escape_char(c));
            }
        } else if (c as u32) < 0x20 {
            let code = c as u32;
            let ghost mid0 = out@;
            out.append("\\u00");
            push_char(out, hex_digit_char(code / 16));
            push_char(out, hex_digit_char(code % 16));
            proof {
                reveal_strlit("\\u00");
                assert(out@ =~= mid0 + json_escape_char(c));
            }
        } else {
            push_char(out, c);
            proof {
                assert(seq![c] =~= json_escape_char(c));
            }
        }
        proof {
            let t0 = s@.subrange(0, i as int);
            let t1 = s@.subrange(0, i + 1 as int);
            assert(t1.drop_last() =~= t0);
            assert(t1.last() == s@[i as int]);
            assert(out@ =~= old(out)@ + json_escaped(t1));
        }
        i = i + 1;
    }
    proof {
        assert(s@.subrange(0, n as int) =~= s@);
    }
}

/// Append the JSON string literal for `s` to `out`.
fn write_json_string(out: &mut String, s: &String)
    ensures
        final(out)@ == old(out)@ + json_string_of(s@),
{
    out.append("\"");
    write_escaped(out, s);
    out.append("\"");
    proof {
        assert(final(out)@ =~= old(out)@ + json_string_of(s@));
    }
}

/// The JSON string literal for one string value.
pub fn json_string(s: &String) -> (r: String)
    ensures
        r@ == json_string_of(s@),
{
    let mut out = String::new();
    write_json_string(&mut out, s);
    proof {
        assert(out@ =~= json_string_of(s@));
    }
    out
}

/// The JSON object encoding of one entry, fields in declaration order.
pub open spec fn json_of_entry(e: EntryModel) -> Seq<char> {
    "{\"timestamp\":"@ + json_string_of(e.timestamp) + ",\"service\":"@ + json_string_of(e.service)
        + ",\"level\":"@ + json_string_of(e.level) + ",\"message\":"@ + json_string_of(e.message)
        + "}"@
}

/// The JSON object encoding of one entry.
pub fn entry_to_json(e: &Entry) -> (r: String)
    ensures
        r@ == json_of_entry(e@),
{
    let mut out = String::new();
    out.append("{\"timestamp\":");
    write_json_string(&mut out, &e.timestamp);
    out.append(",\"service\":");
    write_json_string(&mut out, &e.service);
    out.append(",\"level\":");
    write_json_string(&mut out, &e.level);
    out.append(",\"message\":");
    write_json_string(&mut out, &e.message);
    out.append("}");
    proof {
        assert(out@ =~= json_of_entry(e@));
    }
    out
}

/// The encodings of a run of entries, separated by commas.
pub open spec fn json_entries_joined(s: Seq<EntryModel>) -> Seq<char>
    decreases s.len(),
{
    if s.len() == 0 {
        Seq::<char>::empty()
    } else if s.len() == 1 {
        json_of_entry(s[0])
    } else {
        json_entries_joined(s.drop_last()) + ","@ + json_of_entry(s.last())
    }
}

/// The JSON array encoding of a sequence of entries.
pub open spec fn json_of_entries(s: Seq<EntryModel>) -> Seq<char> {
    "["@ + json_entries_joined(s) + "]"@
}

/// The JSON array encoding of a snapshot, in order.
pub fn entries_to_json(v: &Vec<Entry>) -> (r: String)
    ensures
        r@ == json_of_entries(v.deep_view()),
{
    let mut out = String::new();
    out.append("[");
    let mut i: usize = 0;
    proof {
        assert(v.deep_view().subrange(0, 0) =~= Seq::<EntryModel>::empty());
        assert(out@ =~= "["@ + json_entries_joined(v.deep_view().subrange(0, 0)));
    }
    while i < v.len()
        invariant
            i <= v@.len(),
            out@ == "["@ + json_entries_joined(v.deep_view().subrange(0, i as int)),
        decreases v@.len() - i,
    {
        if i > 0 {
            out.append(",");
        }
        let piece = entry_to_json(&v[i]);
        out.append(piece.as_str());
        proof {
            let t0 = v.deep_view().subrange(0, i as int);
            let t1 = v.deep_view().subrange(0, i + 1 as int);
            assert(t1.drop_last() =~= t0);
            assert(t1.last() == v.deep_view()[i as int]);
            assert(out@ =~= "["@ + json_entries_joined(t1));
        }
        i = i + 1;
    }
    out.append("]");
    proof {
        assert(v.deep_view().subrange(0, v.deep_view().len() as int) =~= v.deep_view());
        assert(out@ =~= json_of_entries(v.deep_view()));
    }
    out
}

/// One frequency-table row as a JSON object member.
pub open spec fn json_of_row(p: (Seq<char>, nat)) -> Seq<char> {
    json_string_of(p.0) + ":"@ + dec_rep(p.1)
}

/// The rows of a frequency table, separated by commas.
pub open spec fn json_rows_joined(t: Seq<(Seq<char>, nat)>) -> Seq<char>
    decreases t.len(),
{
    if t.len() == 0 {
        Seq::<char>::empty()
    } else if t.len() == 1 {
        json_of_row(t[0])
    } else {
        json_rows_joined(t.drop_last()) + ","@ + json_of_row(t.last())
    }
}

/// The JSON object encoding of a frequency table.
pub open spec fn json_of_table(t: Seq<(Seq<char>, nat)>) -> Seq<char> {
    "{"@ + json_rows_joined(t) + "}"@
}

/// Append the JSON object for a frequency table to `out`.
fn write_table(out: &mut String, t: &crate::stats::CountTable)
    ensures
        final(out)@ == old(out)@ + json_of_table(t@),
{
    let ghost base = out@;
    out.append("{");
    let n = t.len();
    let mut i: usize = 0;
    proof {
        assert(t@.subrange(0, 0) =~= Seq::<(Seq<char>, nat)>::empty());
        assert(out@ =~= base + "{"@ + json_rows_joined(t@.subrange(0, 0)));
    }
    while i < n
        invariant
            i <= n,
            n == t@.len(),
            base == old(out)@,
            out@ == base + "{"@ + json_rows_joined(t@.subrange(0, i as int)),
        decreases n - i,
    {
        if i > 0 {
            out.append(",");
        }
        let row = t.row(i);
        write_json_string(out, row.0);
        out.append(":");
        let count = u64_to_dec(row.1);
        out.append(count.as_str());
        proof {
            let t0 = t@.subrange(0, i as int);
            let t1 = t@.subrange(0, i + 1 as int);
            assert(t1.drop_last() =~= t0);
            assert(t1.last() == t@[i as int]);
            assert(count@ == dec_rep(t@[i as int].1));
            assert(out@ =~= base + "{"@ + json_rows_joined(t1));
        }
        i = i + 1;
    }
    out.append("}");
    proof {
        assert(t@.subrange(0, t@.len() as int) =~= t@);
        assert(out@ =~= base + json_of_table(t@));
    }
}

/// The JSON encoding of the aggregate statistics: both frequency tables
/// under their field names.
pub open spec fn json_of_stats(by_level: Seq<(Seq<char>, nat)>, by_service: Seq<(Seq<char>, nat)>) -> Seq<char> {
    "{\"by_level\":"@ + json_of_table(by_level) + ",\"by_service\":"@ + json_of_table(by_service)
        + "}"@
}

/// The JSON encoding of the aggregate statistics.
pub fn stats_to_json(st: &Stats) -> (r: String)
    ensures
        r@ == json_of_stats(st.by_level@, st.by_service@),
{
    let mut out = String::new();
    out.append("{\"by_level\":");
    write_table(&mut out, &st.by_level);
    out.append(",\"by_service\":");
    write_table(&mut out, &st.by_service);
    out.append("}");
    proof {
        assert(out@ =~= json_of_stats(st.by_level@, st.by_service@));
    }
    out
}

/// One server-sent-event frame carrying a message.
pub open spec fn sse_frame_of(msg: Seq<char>) -> Seq<char> {
    "data: "@ + msg + "\n\n"@
}

/// Frame one message for a server-sent-event stream.
pub fn sse_frame(msg: &String) -> (r: String)
    ensures
        r@ == sse_frame_of(msg@),
{
    let mut out = String::new();
    out.append("data: ");
    out.append(msg.as_str());
    out.append("\n\n");
    proof {
        assert(out@ =~= sse_frame_of(msg@));
    }
    out
}

/// One server-sent-event frame telling a subscriber how many messages it
/// missed.
pub open spec fn gap_frame_of(missed: nat) -> Seq<char> {
    "event: gap\ndata: "@ + dec_rep(missed) + "\n\n"@
}

/// Frame a gap notice for a server-sent-event stream.
pub fn gap_frame(missed: u64) -> (r: String)
    ensures
        r@ == gap_frame_of(missed as nat),
{
    let mut out = String::new();
    out.append("event: gap\ndata: ");
    let count = u64_to_dec(missed);
    out.append(count.as_str());
    out.append("\n\n");
    proof {
        assert(out@ =~= gap_frame_of(missed as nat));
    }
    out
}

} // verus!
