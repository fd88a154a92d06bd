//! The serialized wire form, stated as spec functions over views, and the
//! verified serializer that produces it.
//!
//! The form is a JSON object per value. Tag field names differ by taxonomy:
//! `code` for `Status`, `type` for `ErrorDetails` and for `ValidationError`.
//! An empty `error_details` list and an empty `metadata` mapping are omitted
//! entirely, not emitted as empty collections.

use vstd::prelude::*;
use vstd::string::StrSliceExecFns;
use vstd::string::StringExecFns;

use crate::model::ErrorDetails;
use crate::model::ErrorDetailsView;
use crate::model::ErrorInfo;
use crate::model::ErrorInfoView;
use crate::model::Status;
use crate::model::StatusView;
use crate::model::ValidationError;
use crate::model::ValidationErrorView;
use crate::model::spec_code_token;
use crate::text::push_char;

verus! {

/// How one character appears inside a JSON string literal: quote and
/// backslash take a backslash escape, as do newline, tab and carriage
/// return; every other character stands for itself.
pub open spec fn esc_char(c: char) -> Seq<char> {
    if c == '"' {
        seq!['\\', '"']
    } else if c == '\\' {
        seq!['\\', '\\']
    } else if c == '\n' {
        seq!['\\', 'n']
    } else if c == '\t' {
        seq!['\\', 't']
    } else if c == '\r' {
        seq!['\\', 'r']
    } else {
        seq![c]
    }
}

/// The escaped body of a JSON string literal.
pub open spec fn esc(s: Seq<char>) -> Seq<char>
    decreases s.len(),
{
    if s.len() == 0 {
        Seq::empty()
    } else {
        esc_char(s[0]) + esc(s.drop_first())
    }
}

/// A JSON string literal: the escaped body between double quotes.
pub open spec fn ser_str(s: Seq<char>) -> Seq<char> {
    seq!['"'] + esc(s) + seq!['"']
}

/// Comma-joined concatenation of already-serialized parts.
pub open spec fn join_comma(parts: Seq<Seq<char>>) -> Seq<char>
    decreases parts.len(),
{
    if parts.len() == 0 {
        Seq::empty()
    } else if parts.len() == 1 {
        parts[0]
    } else {
        parts[0] + seq![','] + join_comma(parts.drop_first())
    }
}

/// One metadata entry: `"key":"value"`.
pub open spec fn ser_md_entry(kv: (Seq<char>, Seq<char>)) -> Seq<char> {
    ser_str(kv.0) + seq![':'] + ser_str(kv.1)
}

/// The body of the metadata object, entries in sequence order.
pub open spec fn ser_md_entries(md: Seq<(Seq<char>, Seq<char>)>) -> Seq<char> {
    join_comma(md.map_values(|kv: (Seq<char>, Seq<char>)| ser_md_entry(kv)))
}

/// An `ErrorInfo` object: tag `ERROR_INFO`, then `reason` and `domain`, with
/// `metadata` omitted entirely when the mapping is empty.
pub open spec fn ser_error_info(e: ErrorInfoView) -> Seq<char> {
    "{\"type\":\"ERROR_INFO\",\"reason\":"@ + ser_str(e.reason) + ",\"domain\":"@ + ser_str(
        e.domain,
    ) + if e.metadata.len() == 0 {
        seq!['}']
    } else {
        ",\"metadata\":{"@ + ser_md_entries(e.metadata) + "}}"@
    }
}

/// A detail record, by its variant's fixed wire tag.
pub open spec fn ser_details(d: ErrorDetailsView) -> Seq<char> {
    match d {
        ErrorDetailsView::ErrorInfo(e) => ser_error_info(e),
    }
}

/// The body of the `error_details` array, records in sequence order.
pub open spec fn ser_details_list(ds: Seq<ErrorDetailsView>) -> Seq<char> {
    join_comma(ds.map_values(|d: ErrorDetailsView| ser_details(d)))
}

/// A `Status` object: the `code` tag, the flattened `message`, and the
/// `error_details` array, omitted entirely when the list is empty.
pub open spec fn ser_status(w: StatusView) -> Seq<char> {
    "{\"code\":"@ + ser_str(spec_code_token(w.code)) + ",\"message\":"@ + ser_str(
        w.details.message,
    ) + if w.details.error_details.len() == 0 {
        seq!['}']
    } else {
        ",\"error_details\":["@ + ser_details_list(w.details.error_details) + "]}"@
    }
}

/// A `ValidationError` object: the `type` tag and the flattened `message`.
pub open spec fn ser_validation_error(v: ValidationErrorView) -> Seq<char> {
    "{\"type\":\"INVALID_FORMAT\",\"message\":"@ + ser_str(v.message()) + seq!['}']
}

/// Escaping distributes over appending one character.
proof fn lemma_esc_snoc(s: Seq<char>, c: char)
    ensures
        esc(s.push(c)) == esc(s) + esc_char(c),
    decreases s.len(),
{
    if s.len() == 0 {
        assert(s.push(c)[0] == c);
        assert(s.push(c).drop_first() =~= Seq::<char>::empty());
        assert(esc(s.push(c)) == esc_char(c) + esc(Seq::<char>::empty()));
        assert(esc_char(c) + Seq::<char>::empty() =~= esc_char(c));
        assert(esc(s) + esc_char(c) =~= esc_char(c));
    } else {
        lemma_esc_snoc(s.drop_first(), c);
        assert(s.push(c).drop_first() =~= s.drop_first().push(c));
        assert(esc(s.push(c)) =~= esc(s) + esc_char(c));
    }
}

/// Splitting the comma-join at the last part.
proof fn lemma_join_comma_snoc(parts: Seq<Seq<char>>, p: Seq<char>)
    ensures
        parts.len() == 0 ==> join_comma(parts.push(p)) == p,
        parts.len() > 0 ==> join_comma(parts.push(p)) == join_comma(parts) + seq![','] + p,
    decreases parts.len(),
{
    if parts.len() == 0 {
        assert(join_comma(parts.push(p)) =~= p);
    } else if parts.len() == 1 {
        assert(parts.push(p)[0] == parts[0]);
        assert(parts.push(p).drop_first() =~= seq![p]);
        assert(seq![p].len() == 1 && seq![p][0] == p);
        assert(join_comma(seq![p]) == p);
        assert(join_comma(parts.push(p)) =~= parts[0] + seq![','] + p);
        assert(join_comma(parts) + seq![','] + p =~= parts[0] + seq![','] + p);
    } else {
        lemma_join_comma_snoc(parts.drop_first(), p);
        assert(parts.push(p).drop_first() =~= parts.drop_first().push(p));
        assert(join_comma(parts.push(p)) =~= join_comma(parts) + seq![','] + p);
    }
}

/// Appends the escaped body of `s` to `out`.
fn write_escaped(out: &mut String, s: &str)
    ensures
        final(out)@ == old(out)@ + esc(s@),
{
    let n = s.unicode_len();
    let mut i: usize = 0;
    while i < n
        invariant
            0 <= i <= n,
            n == s@.len(),
            out@ == old(out)@ + esc(s@.subrange(0, i as int)),
        decreases n - i,
    {
        let c = s.get_char(i);
        if c == '"' {
            push_char(out, '\\');
            push_char(out, '"');
        } else if c == '\\' {
            push_char(out, '\\');
            push_char(out, '\\');
        } else if c == '\n' {
            push_char(out, '\\');
            push_char(out, 'n');
        } else if c == '\t' {
            push_char(out, '\\');
            push_char(out, 't');
        } else if c == '\r' {
            push_char(out, '\\');
            push_char(out, 'r');
        } else {
            push_char(out, c);
        }
        proof {
            lemma_esc_snoc(s@.subrange(0, i as int), s@[i as int]);
            assert(s@.subrange(0, i + 1 as int) =~= s@.subrange(0, i as int).push(s@[i as int]));
            assert(out@ =~= old(out)@ + esc(s@.subrange(0, i + 1 as int)));
        }
        i = i + 1;
    }
    proof {
        assert(s@.subrange(0, n as int) =~= s@);
    }
}

/// Appends the JSON string literal for `s` to `out`.
fn write_json_str(out: &mut String, s: &str)
    ensures
        final(out)@ == old(out)@ + ser_str(s@),
{
    push_char(out, '"');
    write_escaped(out, s);
    push_char(out, '"');
    proof {
        assert(out@ =~= old(out)@ + ser_str(s@));
    }
}

/// Appends the serialized `ErrorInfo` object to `out`.
fn write_error_info(out: &mut String, e: &ErrorInfo)
    ensures
        final(out)@ == old(out)@ + ser_error_info(e@),
{
    out.append("{\"type\":\"ERROR_INFO\",\"reason\":");
    write_json_str(out, e.reason.as_str());
    out.append(",\"domain\":");
    write_json_str(out, e.domain.as_str());
    if e.metadata.len() == 0 {
        push_char(out, '}');
        proof {
            assert(e@.metadata.len() == 0);
            assert(out@ =~= old(out)@ + ser_error_info(e@));
        }
    } else {
        out.append(",\"metadata\":{");
        let ghost base = out@;
        let ghost mdv = e@.metadata;
        let ghost entry_of = |kv: (Seq<char>, Seq<char>)| ser_md_entry(kv);
        let n = e.metadata.len();
        let mut i: usize = 0;
        while i < n
            invariant
                i <= n,
                n == e.metadata.len(),
                mdv == e@.metadata,
                mdv.len() == n,
                entry_of == (|kv: (Seq<char>, Seq<char>)| ser_md_entry(kv)),
                out@ == base + join_comma(mdv.subrange(0, i as int).map_values(entry_of)),
            decreases n - i,
        {
            if i > 0 {
                push_char(out, ',');
            }
            let ghost before = out@;
            write_json_str(out, e.metadata[i].0.as_str());
            push_char(out, ':');
            write_json_str(out, e.metadata[i].1.as_str());
            proof {
                assert(mdv[i as int] == (e.metadata@[i as int].0@, e.metadata@[i as int].1@));
                assert(out@ =~= before + ser_md_entry(mdv[i as int]));
                let prefix = mdv.subrange(0, i as int).map_values(entry_of);
                lemma_join_comma_snoc(prefix, ser_md_entry(mdv[i as int]));
                assert(mdv.subrange(0, i + 1 as int).map_values(entry_of) =~= prefix.push(
                    ser_md_entry(mdv[i as int]),
                ));
                assert(out@ =~= base + join_comma(
                    mdv.subrange(0, i + 1 as int).map_values(entry_of),
                ));
            }
            i = i + 1;
        }
        out.append("}}");
        proof {
            assert(mdv.subrange(0, n as int) =~= mdv);
            assert(ser_md_entries(e@.metadata) == join_comma(mdv.map_values(entry_of)));
            assert(out@ =~= old(out)@ + ser_error_info(e@));
        }
    }
}

/// Appends the serialized detail record to `out`.
fn write_details(out: &mut String, d: &ErrorDetails)
    ensures
        final(out)@ == old(out)@ + ser_details(d@),
{
    match d {
        ErrorDetails::ErrorInfo(e) => write_error_info(out, e),
    }
}

impl ErrorInfo {
    /// The serialized form of this record alone.
    pub fn to_json(&self) -> (r: String)
        ensures
            r@ == ser_error_info(self@),
    {
        let mut out = String::new();
        write_error_info(&mut out, self);
        proof {
            assert(out@ =~= ser_error_info(self@));
        }
        out
    }
}

impl Status {
    /// The serialized form of this status: `code` tag, flattened `message`,
    /// and `error_details` only when the list is non-empty.
    pub fn to_json(&self) -> (r: String)
        ensures
            r@ == ser_status(self@),
    {
        let mut out = String::new();
        out.append("{\"code\":");
        write_json_str(&mut out, self.code().token());
        out.append(",\"message\":");
        write_json_str(&mut out, self.details().message.as_str());
        let ds = &self.details().error_details;
        if ds.len() == 0 {
            push_char(&mut out, '}');
            proof {
                assert(self@.details.error_details.len() == 0);
                assert(out@ =~= ser_status(self@));
            }
            out
        } else {
            out.append(",\"error_details\":[");
            let ghost base = out@;
            let ghost dsv = self@.details.error_details;
            let ghost details_of = |d: ErrorDetailsView| ser_details(d);
            let n = ds.len();
            let mut i: usize = 0;
            while i < n
                invariant
                    i <= n,
                    n == ds.len(),
                    dsv == ds@.map_values(|d: ErrorDetails| d@),
                    dsv.len() == n,
                    details_of == (|d: ErrorDetailsView| ser_details(d)),
                    out@ == base + join_comma(dsv.subrange(0, i as int).map_values(details_of)),
                decreases n - i,
            {
                if i > 0 {
                    push_char(&mut out, ',');
                }
                let ghost before = out@;
                write_details(&mut out, &ds[i]);
                proof {
                    assert(dsv[i as int] == ds@[i as int]@);
                    assert(out@ =~= before + ser_details(dsv[i as int]));
                    let prefix = dsv.subrange(0, i as int).map_values(details_of);
                    lemma_join_comma_snoc(prefix, ser_details(dsv[i as int]));
                    assert(dsv.subrange(0, i + 1 as int).map_values(details_of) =~= prefix.push(
                        ser_details(dsv[i as int]),
                    ));
                    assert(out@ =~= base + join_comma(
                        dsv.subrange(0, i + 1 as int).map_values(details_of),
                    ));
                }
                i = i + 1;
            }
            out.append("]}");
            proof {
                assert(dsv.subrange(0, n as int) =~= dsv);
                assert(ser_details_list(dsv) == join_comma(dsv.map_values(details_of)));
                assert(out@ =~= ser_status(self@));
            }
            out
        }
    }
}

impl ValidationError {
    /// The serialized form of this validation error: `type` tag and
    /// flattened `message`.
    pub fn to_json(&self) -> (r: String)
        ensures
            r@ == ser_validation_error(self@),
    {
        let mut out = String::new();
        out.append("{\"type\":\"INVALID_FORMAT\",\"message\":");
        match self {
            ValidationError::InvalidFormat { message } => {
                write_json_str(&mut out, message.as_str());
            },
        }
        push_char(&mut out, '}');
        proof {
            assert(out@ =~= ser_validation_error(self@));
        }
        out
    }
}

} // verus!
