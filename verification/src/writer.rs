//! Rendering of accepted records as delimited text.
//!
//! Each record becomes one row of two comma-separated fields. A field
//! holding a comma, a double quote or a line break is wrapped in double
//! quotes, with every embedded quote doubled, so a standard reader of
//! delimited text reproduces the field exactly. The caller decides
//! whether the header row is wanted — it belongs at the top of a file
//! that is still empty — and appends the rendered text to the output.

use vstd::prelude::*;

use crate::text::push_char;
use crate::Record;

verus! {

/// Whether a field must be quoted: it holds a quote, a comma or a line
/// break.
pub open spec fn needs_quoting(f: Seq<char>) -> bool {
    exists|i: int|
        0 <= i < f.len() && (f[i] == '"' || f[i] == ',' || f[i] == '\n' || f[i] == '\r')
}

/// The field with every double quote doubled.
pub open spec fn escaped(f: Seq<char>) -> Seq<char>
    decreases f.len(),
{
    if f.len() == 0 {
        Seq::empty()
    } else {
        escaped(f.drop_last()) + (if f.last() == '"' {
            seq!['"', '"']
        } else {
            seq![f.last()]
        })
    }
}

/// The encoding of one field: quoted and escaped when necessary, plain
/// otherwise.
pub open spec fn enc_field(f: Seq<char>) -> Seq<char> {
    if needs_quoting(f) {
        seq!['"'] + escaped(f) + seq!['"']
    } else {
        f
    }
}

/// Inverse of the escaping: collapses every doubled quote back to one.
pub open spec fn unescape(s: Seq<char>) -> Seq<char>
    decreases s.len(),
{
    if s.len() == 0 {
        Seq::empty()
    } else if s.len() >= 2 && s.last() == '"' && s[s.len() - 2] == '"' {
        unescape(s.subrange(0, s.len() - 2)).push('"')
    } else {
        unescape(s.drop_last()).push(s.last())
    }
}

/// What a standard reader makes of one encoded field: a field wrapped
/// in quotes is unwrapped and unescaped; any other field stands as is.
pub open spec fn parse_field(s: Seq<char>) -> Seq<char> {
    if s.len() >= 2 && s.first() == '"' && s.last() == '"' {
        unescape(s.subrange(1, s.len() - 1))
    } else {
        s
    }
}

/// Unescaping undoes the escaping exactly.
proof fn lemma_unescape_escaped(f: Seq<char>)
    ensures
        unescape(escaped(f)) == f,
    decreases f.len(),
{
    if f.len() == 0 {
    } else {
        let e = escaped(f);
        let prev = escaped(f.drop_last());
        lemma_unescape_escaped(f.drop_last());
        if f.last() == '"' {
            assert(e =~= prev + seq!['"', '"']);
            assert(e.len() == prev.len() + 2);
            assert(e.last() == '"' && e[e.len() - 2] == '"');
            assert(e.subrange(0, e.len() - 2) =~= prev);
            assert(unescape(e) == unescape(prev).push('"'));
            assert(f =~= f.drop_last().push('"'));
        } else {
            assert(e =~= prev + seq![f.last()]);
            assert(e.last() == f.last());
            assert(e.drop_last() =~= prev);
            assert(unescape(e) == unescape(prev).push(f.last()));
            assert(f =~= f.drop_last().push(f.last()));
        }
    }
}

/// Round trip: a standard reader of delimited text reproduces every
/// field exactly as it was, whatever commas, quotes or line breaks it
/// holds.
pub proof fn lemma_field_round_trip(f: Seq<char>)
    ensures
        parse_field(enc_field(f)) == f,
{
    if needs_quoting(f) {
        let e = enc_field(f);
        assert(e =~= seq!['"'] + escaped(f) + seq!['"']);
        assert(e.len() == escaped(f).len() + 2);
        assert(e.first() == '"' && e.last() == '"');
        assert(e.subrange(1, e.len() - 1) =~= escaped(f));
        lemma_unescape_escaped(f);
    } else {
        if f.len() >= 2 && f.first() == '"' && f.last() == '"' {
            assert(needs_quoting(f));
        }
    }
}

/// One data row: the two encoded fields, comma-separated, ending in a
/// line feed.
pub open spec fn enc_row(msg: Seq<char>, chg: Seq<char>) -> Seq<char> {
    enc_field(msg) + seq![','] + enc_field(chg) + seq!['\n']
}

/// The rows of a run of records, in order.
pub open spec fn enc_rows(rs: Seq<(Seq<char>, Seq<char>)>) -> Seq<char>
    decreases rs.len(),
{
    if rs.len() == 0 {
        Seq::empty()
    } else {
        enc_rows(rs.drop_last()) + enc_row(rs.last().0, rs.last().1)
    }
}

/// The header row.
pub open spec fn header_row() -> Seq<char> {
    "commit_message,commit_changes\n"@
}

/// The rendered dataset: the header row if asked for, then one row per
/// record.
pub open spec fn dataset_text(rs: Seq<(Seq<char>, Seq<char>)>, include_header: bool) -> Seq<
    char,
> {
    (if include_header {
        header_row()
    } else {
        Seq::empty()
    }) + enc_rows(rs)
}

/// The (message, changes) pairs of a run of records.
pub open spec fn record_views(rs: Seq<Record>) -> Seq<(Seq<char>, Seq<char>)> {
    rs.map_values(|r: Record| (r.commit_message@, r.commit_changes@))
}

/// Append the encoding of one field to `out`.
fn write_field(out: &mut String, f: &str)
    ensures
        final(out)@ == old(out)@ + enc_field(f@),
{
    let n = f.unicode_len();
    let mut needs = false;
    let mut i: usize = 0;
    while i < n
        invariant
            n == f@.len(),
            i <= n,
            needs <==> exists|k: int|
                0 <= k < i && (f@[k] == '"' || f@[k] == ',' || f@[k] == '\n' || f@[k] == '\r'),
        decreases n - i,
    {
        let c = f.get_char(i);
        if c == '"' || c == ',' || c == '\n' || c == '\r' {
            needs = true;
        }
        i += 1;
    }
    if !needs {
        out.append(f);
        return;
    }
    push_char(out, '"');
    let ghost base = out@;
    let mut j: usize = 0;
    while j < n
        invariant
            n == f@.len(),
            j <= n,
            out@ == base + escaped(f@.take(j as int)),
        decreases n - j,
    {
        let c = f.get_char(j);
        if c == '"' {
            push_char(out, '"');
            push_char(out, '"');
        } else {
            push_char(out, c);
        }
        proof {
            let taken = f@.take(j + 1);
            assert(taken.drop_last() =~= f@.take(j as int));
            assert(taken.last() == f@[j as int]);
            if c == '"' {
                assert(out@ =~= base + escaped(f@.take(j + 1)));
            } else {
                assert(out@ =~= base + escaped(f@.take(j + 1)));
            }
        }
        j += 1;
    }
    push_char(out, '"');
    proof {
        assert(f@.take(n as int) =~= f@);
        assert(out@ =~= old(out)@ + (seq!['"'] + escaped(f@) + seq!['"']));
    }
}

/// Render a run of records as delimited text, with the header row first
/// when asked for.
pub fn render_dataset(records: &Vec<Record>, include_header: bool) -> (out: String)
    ensures
        out@ == dataset_text(record_views(records@), include_header),
{
    let mut out = String::new();
    if include_header {
        out.append("commit_message,commit_changes\n");
    }
    let ghost head = out@;
    let mut i: usize = 0;
    while i < records.len()
        invariant
            i <= records@.len(),
            head == if include_header {
                header_row()
            } else {
                Seq::<char>::empty()
            },
            out@ == head + enc_rows(record_views(records@).take(i as int)),
        decreases records@.len() - i,
    {
        let r = &records[i];
        write_field(&mut out, r.commit_message.as_str());
        push_char(&mut out, ',');
        write_field(&mut out, r.commit_changes.as_str());
        push_char(&mut out, '\n');
        proof {
            let rs = record_views(records@);
            let taken = rs.take(i + 1);
            assert(taken.drop_last() =~= rs.take(i as int));
            assert(taken.last() == rs[i as int]);
            assert(rs[i as int] == (r.commit_message@, r.commit_changes@));
            assert(out@ =~= head + enc_rows(taken));
        }
        i += 1;
    }
    proof {
        assert(record_views(records@).take(records@.len() as int) =~= record_views(records@));
        assert(out@ =~= dataset_text(record_views(records@), include_header));
    }
    out
}

} // verus!
