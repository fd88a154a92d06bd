//! Parsing of the serialized wire form back into values, and the proof that
//! parsing inverts serialization.
//!
//! The parser reads exactly the canonical form that the serializer emits:
//! fields in their fixed order, no padding whitespace. It is stated as spec
//! functions over character sequences; the executable parser implements them.

use vstd::prelude::*;
use vstd::string::StrSliceExecFns;
use vstd::string::StringExecFns;

use crate::json::esc;
use crate::json::esc_char;
use crate::json::ser_details;
use crate::json::ser_details_list;
use crate::json::ser_error_info;
use crate::json::ser_md_entries;
use crate::json::ser_md_entry;
use crate::json::ser_status;
use crate::json::ser_str;
use crate::json::ser_validation_error;
use crate::model::Code;
use crate::model::ErrorDetails;
use crate::model::ErrorDetailsView;
use crate::model::ErrorInfo;
use crate::model::ErrorInfoView;
use crate::model::Status;
use crate::model::StatusDetails;
use crate::model::StatusDetailsView;
use crate::model::StatusView;
use crate::model::ValidationError;
use crate::model::ValidationErrorView;
use crate::model::spec_code_token;
use crate::text::push_char;
use crate::text::str_eq;

verus! {

/// The literal `lit` stands at position `i` of `s`; on success the position
/// right after it.
pub open spec fn p_lit(s: Seq<char>, i: int, lit: Seq<char>) -> Option<int> {
    if 0 <= i && i + lit.len() <= s.len() && s.subrange(i, i + lit.len()) == lit {
        Some(i + lit.len())
    } else {
        None
    }
}

/// The character a backslash escape stands for.
pub open spec fn unesc_char(c: char) -> Option<char> {
    if c == '"' {
        Some('"')
    } else if c == '\\' {
        Some('\\')
    } else if c == 'n' {
        Some('\n')
    } else if c == 't' {
        Some('\t')
    } else if c == 'r' {
        Some('\r')
    } else {
        None
    }
}

/// The body of a string literal starting at `i`, up to and including the
/// closing quote; on success the unescaped content and the position after
/// the quote.
pub open spec fn p_str_content(s: Seq<char>, i: int) -> Option<(Seq<char>, int)>
    decreases s.len() - i,
{
    if i < 0 || i >= s.len() {
        None
    } else if s[i] == '"' {
        Some((Seq::empty(), i + 1))
    } else if s[i] == '\\' {
        if i + 1 < s.len() {
            match unesc_char(s[i + 1]) {
                Some(c) => match p_str_content(s, i + 2) {
                    Some(r) => Some((seq![c] + r.0, r.1)),
                    None => None,
                },
                None => None,
            }
        } else {
            None
        }
    } else {
        match p_str_content(s, i + 1) {
            Some(r) => Some((seq![s[i]] + r.0, r.1)),
            None => None,
        }
    }
}

/// A whole string literal, opening quote included.
pub open spec fn p_string(s: Seq<char>, i: int) -> Option<(Seq<char>, int)> {
    if 0 <= i < s.len() && s[i] == '"' {
        p_str_content(s, i + 1)
    } else {
        None
    }
}

/// The code named by a wire token.
pub open spec fn code_of_token(t: Seq<char>) -> Option<Code> {
    if t == "CANCELLED"@ {
        Some(Code::Cancelled)
    } else if t == "UNKNOWN"@ {
        Some(Code::Unknown)
    } else if t == "INVALID_ARGUMENT"@ {
        Some(Code::InvalidArgument)
    } else if t == "DEADLINE_EXCEEDED"@ {
        Some(Code::DeadlineExceeded)
    } else if t == "NOT_FOUND"@ {
        Some(Code::NotFound)
    } else if t == "ALREADY_EXISTS"@ {
        Some(Code::AlreadyExists)
    } else if t == "PERMISSION_DENIED"@ {
        Some(Code::PermissionDenied)
    } else if t == "UNAUTHENTICATED"@ {
        Some(Code::Unauthenticated)
    } else if t == "RESOURCE_EXHAUSTED"@ {
        Some(Code::ResourceExhausted)
    } else if t == "FAILED_PRECONDITION"@ {
        Some(Code::FailedPrecondition)
    } else if t == "ABORTED"@ {
        Some(Code::Aborted)
    } else if t == "OUT_OF_RANGE"@ {
        Some(Code::OutOfRange)
    } else if t == "UNIMPLEMENTED"@ {
        Some(Code::Unimplemented)
    } else if t == "INTERNAL"@ {
        Some(Code::Internal)
    } else if t == "UNAVAILABLE"@ {
        Some(Code::Unavailable)
    } else if t == "DATA_LOSS"@ {
        Some(Code::DataLoss)
    } else {
        None
    }
}

/// One or more metadata entries, comma-separated; stops before the first
/// character after an entry that is not a comma.
pub open spec fn p_md_entries(s: Seq<char>, i: int) -> Option<(Seq<(Seq<char>, Seq<char>)>, int)>
    decreases s.len() - i,
{
    if i < 0 {
        None
    } else {
        match p_string(s, i) {
            None => None,
            Some((k, j1)) => {
                if j1 < s.len() && s[j1] == ':' {
                    match p_string(s, j1 + 1) {
                        None => None,
                        Some((v, j2)) => {
                            if j2 < s.len() && s[j2] == ',' {
                                if j2 + 1 > i {
                                    match p_md_entries(s, j2 + 1) {
                                        None => None,
                                        Some((rest, j3)) => Some((seq![(k, v)] + rest, j3)),
                                    }
                                } else {
                                    None
                                }
                            } else {
                                Some((seq![(k, v)], j2))
                            }
                        },
                    }
                } else {
                    None
                }
            },
        }
    }
}

/// An `ErrorInfo` object.
pub open spec fn p_error_info(s: Seq<char>, i: int) -> Option<(ErrorInfoView, int)> {
    match p_lit(s, i, "{\"type\":\"ERROR_INFO\",\"reason\":"@) {
        None => None,
        Some(j0) => match p_string(s, j0) {
            None => None,
            Some((reason, j1)) => match p_lit(s, j1, ",\"domain\":"@) {
                None => None,
                Some(j2) => match p_string(s, j2) {
                    None => None,
                    Some((domain, j3)) => {
                        if j3 < s.len() && s[j3] == '}' {
                            Some(
                                (
                                    ErrorInfoView { reason, domain, metadata: Seq::empty() },
                                    j3 + 1,
                                ),
                            )
                        } else {
                            match p_lit(s, j3, ",\"metadata\":{"@) {
                                None => None,
                                Some(j4) => match p_md_entries(s, j4) {
                                    None => None,
                                    Some((md, j5)) => match p_lit(s, j5, "}}"@) {
                                        None => None,
                                        Some(j6) => Some(
                                            (ErrorInfoView { reason, domain, metadata: md }, j6),
                                        ),
                                    },
                                },
                            }
                        }
                    },
                },
            },
        },
    }
}

/// A detail record, selected by its wire tag.
pub open spec fn p_details(s: Seq<char>, i: int) -> Option<(ErrorDetailsView, int)> {
    match p_error_info(s, i) {
        Some(r) => Some((ErrorDetailsView::ErrorInfo(r.0), r.1)),
        None => None,
    }
}

/// One or more detail records, comma-separated.
pub open spec fn p_details_list(s: Seq<char>, i: int) -> Option<(Seq<ErrorDetailsView>, int)>
    decreases s.len() - i,
{
    if i < 0 {
        None
    } else {
        match p_details(s, i) {
            None => None,
            Some((d, j)) => {
                if j < s.len() && s[j] == ',' {
                    if j + 1 > i {
                        match p_details_list(s, j + 1) {
                            None => None,
                            Some((rest, j2)) => Some((seq![d] + rest, j2)),
                        }
                    } else {
                        None
                    }
                } else {
                    Some((seq![d], j))
                }
            },
        }
    }
}

/// A `Status` object.
pub open spec fn p_status(s: Seq<char>, i: int) -> Option<(StatusView, int)> {
    match p_lit(s, i, "{\"code\":"@) {
        None => None,
        Some(j0) => match p_string(s, j0) {
            None => None,
            Some((tok, j1)) => match code_of_token(tok) {
                None => None,
                Some(code) => match p_lit(s, j1, ",\"message\":"@) {
                    None => None,
                    Some(j2) => match p_string(s, j2) {
                        None => None,
                        Some((msg, j3)) => {
                            if j3 < s.len() && s[j3] == '}' {
                                Some(
                                    (
                                        StatusView {
                                            code,
                                            details: StatusDetailsView {
                                                message: msg,
                                                error_details: Seq::empty(),
                                            },
                                        },
                                        j3 + 1,
                                    ),
                                )
                            } else {
                                match p_lit(s, j3, ",\"error_details\":["@) {
                                    None => None,
                                    Some(j4) => match p_details_list(s, j4) {
                                        None => None,
                                        Some((ds, j5)) => match p_lit(s, j5, "]}"@) {
                                            None => None,
                                            Some(j6) => Some(
                                                (
                                                    StatusView {
                                                        code,
                                                        details: StatusDetailsView {
                                                            message: msg,
                                                            error_details: ds,
                                                        },
                                                    },
                                                    j6,
                                                ),
                                            ),
                                        },
                                    },
                                }
                            }
                        },
                    },
                },
            },
        },
    }
}

/// A complete serialized `Status`: the object with nothing following it.
pub open spec fn spec_parse_status(s: Seq<char>) -> Option<StatusView> {
    match p_status(s, 0) {
        Some((w, j)) => if j == s.len() {
            Some(w)
        } else {
            None
        },
        None => None,
    }
}

/// A `ValidationError` object.
pub open spec fn p_validation_error(s: Seq<char>, i: int) -> Option<(ValidationErrorView, int)> {
    match p_lit(s, i, "{\"type\":\"INVALID_FORMAT\",\"message\":"@) {
        None => None,
        Some(j0) => match p_string(s, j0) {
            None => None,
            Some((msg, j1)) => {
                if j1 < s.len() && s[j1] == '}' {
                    Some((ValidationErrorView::InvalidFormat { message: msg }, j1 + 1))
                } else {
                    None
                }
            },
        },
    }
}

/// A complete serialized `ValidationError`.
pub open spec fn spec_parse_validation_error(s: Seq<char>) -> Option<ValidationErrorView> {
    match p_validation_error(s, 0) {
        Some((v, j)) => if j == s.len() {
            Some(v)
        } else {
            None
        },
        None => None,
    }
}

/// A window of `s` equal to a concatenation splits into windows equal to the
/// two parts.
proof fn lemma_peel(s: Seq<char>, i: int, a: Seq<char>, b: Seq<char>)
    requires
        0 <= i,
        i + a.len() + b.len() <= s.len(),
        s.subrange(i, i + a.len() + b.len()) == a + b,
    ensures
        s.subrange(i, i + a.len()) == a,
        s.subrange(i + a.len(), i + a.len() + b.len()) == b,
{
    assert forall|k: int| 0 <= k < a.len() implies s.subrange(i, i + a.len())[k] == a[k] by {
        assert(s.subrange(i, i + a.len() + b.len())[k] == (a + b)[k]);
    }
    assert(s.subrange(i, i + a.len()) =~= a);
    assert forall|k: int|
        0 <= k < b.len() implies s.subrange(i + a.len(), i + a.len() + b.len())[k] == b[k] by {
        let n = a.len() + k;
        assert(s.subrange(i, i + a.len() + b.len())[n] == (a + b)[n]);
        assert((a + b)[n] == b[n - a.len()]);
        assert(s.subrange(i, i + a.len() + b.len())[n] == s[i + n]);
        assert(s.subrange(i + a.len(), i + a.len() + b.len())[k] == s[i + a.len() + k]);
    }
    assert(s.subrange(i + a.len(), i + a.len() + b.len()) =~= b);
}

/// A window equal to a one-character sequence pins the character.
proof fn lemma_char_at(s: Seq<char>, i: int, x: char)
    requires
        0 <= i,
        i + 1 <= s.len(),
        s.subrange(i, i + 1) == seq![x],
    ensures
        s[i] == x,
{
    assert(s.subrange(i, i + 1)[0] == x);
}

/// Parsing a string-literal body inverts escaping: where the escaped form of
/// `m` stands at `i` followed by a closing quote, the parse returns `m`.
proof fn lemma_p_content(s: Seq<char>, i: int, m: Seq<char>)
    requires
        0 <= i,
        i + esc(m).len() + 1 <= s.len(),
        s.subrange(i, i + esc(m).len()) == esc(m),
        s[i + esc(m).len()] == '"',
    ensures
        p_str_content(s, i) == Some((m, i + esc(m).len() + 1)),
    decreases m.len(),
{
    if m.len() == 0 {
        assert(esc(m).len() == 0);
        assert(s[i] == '"');
        assert(p_str_content(s, i) == Some((Seq::<char>::empty(), i + 1)));
        assert(m =~= Seq::<char>::empty());
    } else {
        let c = m[0];
        let mrest = m.drop_first();
        assert(esc(m) == esc_char(c) + esc(mrest));
        lemma_peel(s, i, esc_char(c), esc(mrest));
        if c == '"' || c == '\\' || c == '\n' || c == '\t' || c == '\r' {
            assert(esc_char(c).len() == 2);
            assert(s.subrange(i, i + 2)[0] == esc_char(c)[0]);
            assert(s.subrange(i, i + 2)[1] == esc_char(c)[1]);
            assert(s[i] == '\\');
            assert(unesc_char(s[i + 1]) == Some(c));
            lemma_p_content(s, i + 2, mrest);
            assert(p_str_content(s, i) == Some(
                (seq![c] + mrest, i + 2 + esc(mrest).len() + 1),
            ));
            assert(seq![c] + mrest =~= m);
        } else {
            assert(esc_char(c) =~= seq![c]);
            lemma_char_at(s, i, c);
            assert(s[i] != '"' && s[i] != '\\');
            lemma_p_content(s, i + 1, mrest);
            assert(p_str_content(s, i) == Some(
                (seq![c] + mrest, i + 1 + esc(mrest).len() + 1),
            ));
            assert(seq![c] + mrest =~= m);
        }
    }
}

/// Parsing a whole string literal inverts `ser_str`.
proof fn lemma_p_string(s: Seq<char>, i: int, m: Seq<char>)
    requires
        0 <= i,
        i + ser_str(m).len() <= s.len(),
        s.subrange(i, i + ser_str(m).len()) == ser_str(m),
    ensures
        p_string(s, i) == Some((m, i + ser_str(m).len())),
{
    assert(ser_str(m) =~= seq!['"'] + (esc(m) + seq!['"']));
    lemma_peel(s, i, seq!['"'], esc(m) + seq!['"']);
    lemma_char_at(s, i, '"');
    lemma_peel(s, i + 1, esc(m), seq!['"']);
    lemma_char_at(s, i + 1 + esc(m).len(), '"');
    lemma_p_content(s, i + 1, m);
    assert(i + 1 + esc(m).len() + 1 == i + ser_str(m).len());
}

/// Every wire token maps back to its code.
#[verifier::rlimit(50)]
proof fn lemma_code_token_inverse(c: Code)
    ensures
        code_of_token(spec_code_token(c)) == Some(c),
{
    reveal_strlit("CANCELLED");
    reveal_strlit("UNKNOWN");
    reveal_strlit("INVALID_ARGUMENT");
    reveal_strlit("DEADLINE_EXCEEDED");
    reveal_strlit("NOT_FOUND");
    reveal_strlit("ALREADY_EXISTS");
    reveal_strlit("PERMISSION_DENIED");
    reveal_strlit("UNAUTHENTICATED");
    reveal_strlit("RESOURCE_EXHAUSTED");
    reveal_strlit("FAILED_PRECONDITION");
    reveal_strlit("ABORTED");
    reveal_strlit("OUT_OF_RANGE");
    reveal_strlit("UNIMPLEMENTED");
    reveal_strlit("INTERNAL");
    reveal_strlit("UNAVAILABLE");
    reveal_strlit("DATA_LOSS");
    assert("CANCELLED"@.len() == 9);
    assert("UNKNOWN"@.len() == 7);
    assert("INVALID_ARGUMENT"@.len() == 16);
    assert("DEADLINE_EXCEEDED"@.len() == 17);
    assert("NOT_FOUND"@.len() == 9);
    assert("ALREADY_EXISTS"@.len() == 14);
    assert("PERMISSION_DENIED"@.len() == 17);
    assert("UNAUTHENTICATED"@.len() == 15);
    assert("RESOURCE_EXHAUSTED"@.len() == 18);
    assert("FAILED_PRECONDITION"@.len() == 19);
    assert("ABORTED"@.len() == 7);
    assert("OUT_OF_RANGE"@.len() == 12);
    assert("UNIMPLEMENTED"@.len() == 13);
    assert("INTERNAL"@.len() == 8);
    assert("UNAVAILABLE"@.len() == 11);
    assert("DATA_LOSS"@.len() == 9);
    assert("CANCELLED"@[0] == 'C');
    assert("NOT_FOUND"@[0] == 'N');
    assert("DATA_LOSS"@[0] == 'D');
    assert("UNKNOWN"@[0] == 'U');
    assert("ABORTED"@[0] == 'A');
    assert("DEADLINE_EXCEEDED"@[0] == 'D');
    assert("PERMISSION_DENIED"@[0] == 'P');
    match c {
        Code::Cancelled => assert(code_of_token(spec_code_token(c)) == Some(c)),
        Code::Unknown => assert(code_of_token(spec_code_token(c)) == Some(c)),
        Code::InvalidArgument => assert(code_of_token(spec_code_token(c)) == Some(c)),
        Code::DeadlineExceeded => assert(code_of_token(spec_code_token(c)) == Some(c)),
        Code::NotFound => assert(code_of_token(spec_code_token(c)) == Some(c)),
        Code::AlreadyExists => assert(code_of_token(spec_code_token(c)) == Some(c)),
        Code::PermissionDenied => assert(code_of_token(spec_code_token(c)) == Some(c)),
        Code::Unauthenticated => assert(code_of_token(spec_code_token(c)) == Some(c)),
        Code::ResourceExhausted => assert(code_of_token(spec_code_token(c)) == Some(c)),
        Code::FailedPrecondition => assert(code_of_token(spec_code_token(c)) == Some(c)),
        Code::Aborted => assert(code_of_token(spec_code_token(c)) == Some(c)),
        Code::OutOfRange => assert(code_of_token(spec_code_token(c)) == Some(c)),
        Code::Unimplemented => assert(code_of_token(spec_code_token(c)) == Some(c)),
        Code::Internal => assert(code_of_token(spec_code_token(c)) == Some(c)),
        Code::Unavailable => assert(code_of_token(spec_code_token(c)) == Some(c)),
        Code::DataLoss => assert(code_of_token(spec_code_token(c)) == Some(c)),
    }
}

/// Parsing metadata entries inverts their serialization, provided the next
/// character is not a comma.
proof fn lemma_p_md_entries(s: Seq<char>, i: int, md: Seq<(Seq<char>, Seq<char>)>)
    requires
        md.len() >= 1,
        0 <= i,
        i + ser_md_entries(md).len() < s.len(),
        s.subrange(i, i + ser_md_entries(md).len()) == ser_md_entries(md),
        s[i + ser_md_entries(md).len()] != ',',
    ensures
        p_md_entries(s, i) == Some((md, i + ser_md_entries(md).len())),
    decreases md.len(),
{
    let k = md[0].0;
    let v = md[0].1;
    let entry = ser_md_entry(md[0]);
    assert(md[0] == (k, v));
    let parts = md.map_values(|kv: (Seq<char>, Seq<char>)| ser_md_entry(kv));
    assert(parts[0] == entry);
    if md.len() == 1 {
        assert(ser_md_entries(md) == entry);
        assert(entry =~= ser_str(k) + (seq![':'] + ser_str(v)));
        lemma_peel(s, i, ser_str(k), seq![':'] + ser_str(v));
        lemma_p_string(s, i, k);
        let j1 = i + ser_str(k).len();
        lemma_peel(s, j1, seq![':'], ser_str(v));
        lemma_char_at(s, j1, ':');
        lemma_p_string(s, j1 + 1, v);
        let j2 = j1 + 1 + ser_str(v).len();
        assert(j2 == i + ser_md_entries(md).len());
        assert(s[j2] != ',');
        assert(p_md_entries(s, i) == Some((seq![(k, v)], j2)));
        assert(seq![(k, v)] =~= md);
    } else {
        let rest = md.drop_first();
        let restparts = rest.map_values(|kv: (Seq<char>, Seq<char>)| ser_md_entry(kv));
        assert(parts.drop_first() =~= restparts);
        assert(ser_md_entries(md) == entry + seq![','] + ser_md_entries(rest));
        assert(ser_md_entries(md) =~= ser_str(k) + (seq![':'] + (ser_str(v) + (seq![',']
            + ser_md_entries(rest)))));
        lemma_peel(s, i, ser_str(k), seq![':'] + (ser_str(v) + (seq![','] + ser_md_entries(rest))));
        lemma_p_string(s, i, k);
        let j1 = i + ser_str(k).len();
        lemma_peel(s, j1, seq![':'], ser_str(v) + (seq![','] + ser_md_entries(rest)));
        lemma_char_at(s, j1, ':');
        lemma_peel(s, j1 + 1, ser_str(v), seq![','] + ser_md_entries(rest));
        lemma_p_string(s, j1 + 1, v);
        let j2 = j1 + 1 + ser_str(v).len();
        lemma_peel(s, j2, seq![','], ser_md_entries(rest));
        lemma_char_at(s, j2, ',');
        lemma_p_md_entries(s, j2 + 1, rest);
        assert(p_md_entries(s, i) == Some(
            (seq![(k, v)] + rest, i + ser_md_entries(md).len()),
        ));
        assert(seq![(k, v)] + rest =~= md);
    }
}

/// Parsing an `ErrorInfo` object inverts its serialization.
proof fn lemma_p_error_info(s: Seq<char>, i: int, e: ErrorInfoView)
    requires
        0 <= i,
        i + ser_error_info(e).len() <= s.len(),
        s.subrange(i, i + ser_error_info(e).len()) == ser_error_info(e),
    ensures
        p_error_info(s, i) == Some((e, i + ser_error_info(e).len())),
{
    let l1 = "{\"type\":\"ERROR_INFO\",\"reason\":"@;
    let l2 = ",\"domain\":"@;
    let l3 = ",\"metadata\":{"@;
    let tail = if e.metadata.len() == 0 {
        seq!['}']
    } else {
        l3 + ser_md_entries(e.metadata) + "}}"@
    };
    assert(ser_error_info(e) == l1 + ser_str(e.reason) + l2 + ser_str(e.domain) + tail);
    assert(ser_error_info(e) =~= l1 + (ser_str(e.reason) + (l2 + (ser_str(e.domain) + tail))));
    lemma_peel(s, i, l1, ser_str(e.reason) + (l2 + (ser_str(e.domain) + tail)));
    assert(p_lit(s, i, l1) == Some(i + l1.len()));
    let j0 = i + l1.len();
    lemma_peel(s, j0, ser_str(e.reason), l2 + (ser_str(e.domain) + tail));
    lemma_p_string(s, j0, e.reason);
    let j1 = j0 + ser_str(e.reason).len();
    lemma_peel(s, j1, l2, ser_str(e.domain) + tail);
    assert(p_lit(s, j1, l2) == Some(j1 + l2.len()));
    let j2 = j1 + l2.len();
    lemma_peel(s, j2, ser_str(e.domain), tail);
    lemma_p_string(s, j2, e.domain);
    let j3 = j2 + ser_str(e.domain).len();
    if e.metadata.len() == 0 {
        lemma_char_at(s, j3, '}');
        assert(p_error_info(s, i) == Some(
            (
                ErrorInfoView { reason: e.reason, domain: e.domain, metadata: Seq::empty() },
                j3 + 1,
            ),
        ));
        assert(ErrorInfoView {
            reason: e.reason,
            domain: e.domain,
            metadata: Seq::<(Seq<char>, Seq<char>)>::empty(),
        } =~= e);
        assert(j3 + 1 == i + ser_error_info(e).len());
    } else {
        assert(tail =~= l3 + (ser_md_entries(e.metadata) + "}}"@));
        lemma_peel(s, j3, l3, ser_md_entries(e.metadata) + "}}"@);
        reveal_strlit(",\"metadata\":{");
        assert(s.subrange(j3, j3 + l3.len())[0] == l3[0]);
        assert(s[j3] == ',');
        assert(p_lit(s, j3, l3) == Some(j3 + l3.len()));
        let j4 = j3 + l3.len();
        lemma_peel(s, j4, ser_md_entries(e.metadata), "}}"@);
        let j5 = j4 + ser_md_entries(e.metadata).len();
        reveal_strlit("}}");
        assert(s.subrange(j5, j5 + 2)[0] == "}}"@[0]);
        assert(s[j5] == '}');
        lemma_p_md_entries(s, j4, e.metadata);
        assert(p_lit(s, j5, "}}"@) == Some(j5 + 2));
        assert(p_error_info(s, i) == Some(
            (ErrorInfoView { reason: e.reason, domain: e.domain, metadata: e.metadata }, j5 + 2),
        ));
        assert(ErrorInfoView { reason: e.reason, domain: e.domain, metadata: e.metadata } =~= e);
        assert(j5 + 2 == i + ser_error_info(e).len());
    }
}

/// Parsing detail records inverts their serialization, provided the next
/// character is not a comma.
proof fn lemma_p_details_list(s: Seq<char>, i: int, ds: Seq<ErrorDetailsView>)
    requires
        ds.len() >= 1,
        0 <= i,
        i + ser_details_list(ds).len() < s.len(),
        s.subrange(i, i + ser_details_list(ds).len()) == ser_details_list(ds),
        s[i + ser_details_list(ds).len()] != ',',
    ensures
        p_details_list(s, i) == Some((ds, i + ser_details_list(ds).len())),
    decreases ds.len(),
{
    let d = ds[0];
    let e = match d {
        ErrorDetailsView::ErrorInfo(e) => e,
    };
    assert(ser_details(d) == ser_error_info(e));
    let parts = ds.map_values(|x: ErrorDetailsView| ser_details(x));
    assert(parts[0] == ser_details(d));
    if ds.len() == 1 {
        assert(ser_details_list(ds) == ser_details(d));
        lemma_p_error_info(s, i, e);
        let j = i + ser_details(d).len();
        assert(p_details(s, i) == Some((d, j)));
        assert(s[j] != ',');
        assert(p_details_list(s, i) == Some((seq![d], j)));
        assert(seq![d] =~= ds);
    } else {
        let rest = ds.drop_first();
        let restparts = rest.map_values(|x: ErrorDetailsView| ser_details(x));
        assert(parts.drop_first() =~= restparts);
        assert(ser_details_list(ds) == ser_details(d) + seq![','] + ser_details_list(rest));
        assert(ser_details_list(ds) =~= ser_details(d) + (seq![','] + ser_details_list(rest)));
        lemma_peel(s, i, ser_details(d), seq![','] + ser_details_list(rest));
        lemma_p_error_info(s, i, e);
        let j = i + ser_details(d).len();
        assert(p_details(s, i) == Some((d, j)));
        lemma_peel(s, j, seq![','], ser_details_list(rest));
        lemma_char_at(s, j, ',');
        lemma_p_details_list(s, j + 1, rest);
        assert(p_details_list(s, i) == Some((seq![d] + rest, i + ser_details_list(ds).len())));
        assert(seq![d] + rest =~= ds);
    }
}

/// Parsing a `Status` object inverts its serialization.
proof fn lemma_p_status(s: Seq<char>, i: int, w: StatusView)
    requires
        0 <= i,
        i + ser_status(w).len() <= s.len(),
        s.subrange(i, i + ser_status(w).len()) == ser_status(w),
    ensures
        p_status(s, i) == Some((w, i + ser_status(w).len())),
{
    let tok = spec_code_token(w.code);
    let msg = w.details.message;
    let ds = w.details.error_details;
    let l1 = "{\"code\":"@;
    let l2 = ",\"message\":"@;
    let l3 = ",\"error_details\":["@;
    let tail = if ds.len() == 0 {
        seq!['}']
    } else {
        l3 + ser_details_list(ds) + "]}"@
    };
    assert(ser_status(w) == l1 + ser_str(tok) + l2 + ser_str(msg) + tail);
    assert(ser_status(w) =~= l1 + (ser_str(tok) + (l2 + (ser_str(msg) + tail))));
    lemma_peel(s, i, l1, ser_str(tok) + (l2 + (ser_str(msg) + tail)));
    assert(p_lit(s, i, l1) == Some(i + l1.len()));
    let j0 = i + l1.len();
    lemma_peel(s, j0, ser_str(tok), l2 + (ser_str(msg) + tail));
    lemma_p_string(s, j0, tok);
    lemma_code_token_inverse(w.code);
    let j1 = j0 + ser_str(tok).len();
    lemma_peel(s, j1, l2, ser_str(msg) + tail);
    assert(p_lit(s, j1, l2) == Some(j1 + l2.len()));
    let j2 = j1 + l2.len();
    lemma_peel(s, j2, ser_str(msg), tail);
    lemma_p_string(s, j2, msg);
    let j3 = j2 + ser_str(msg).len();
    if ds.len() == 0 {
        lemma_char_at(s, j3, '}');
        assert(p_status(s, i) == Some(
            (
                StatusView {
                    code: w.code,
                    details: StatusDetailsView { message: msg, error_details: Seq::empty() },
                },
                j3 + 1,
            ),
        ));
        assert(StatusDetailsView { message: msg, error_details: Seq::<ErrorDetailsView>::empty() }
            =~= w.details);
        assert(StatusView { code: w.code, details: w.details } =~= w);
        assert(j3 + 1 == i + ser_status(w).len());
    } else {
        assert(tail =~= l3 + (ser_details_list(ds) + "]}"@));
        lemma_peel(s, j3, l3, ser_details_list(ds) + "]}"@);
        reveal_strlit(",\"error_details\":[");
        assert(s.subrange(j3, j3 + l3.len())[0] == l3[0]);
        assert(s[j3] == ',');
        assert(p_lit(s, j3, l3) == Some(j3 + l3.len()));
        let j4 = j3 + l3.len();
        lemma_peel(s, j4, ser_details_list(ds), "]}"@);
        let j5 = j4 + ser_details_list(ds).len();
        reveal_strlit("]}");
        assert(s.subrange(j5, j5 + 2)[0] == "]}"@[0]);
        assert(s[j5] == ']');
        lemma_p_details_list(s, j4, ds);
        assert(p_lit(s, j5, "]}"@) == Some(j5 + 2));
        assert(p_status(s, i) == Some(
            (
                StatusView {
                    code: w.code,
                    details: StatusDetailsView { message: msg, error_details: ds },
                },
                j5 + 2,
            ),
        ));
        assert(StatusDetailsView { message: msg, error_details: ds } =~= w.details);
        assert(StatusView { code: w.code, details: w.details } =~= w);
        assert(j5 + 2 == i + ser_status(w).len());
    }
}

/// Round trip: parsing the serialized form of any status value yields that
/// value, for every code, message, detail list and metadata mapping.
pub proof fn lemma_status_round_trip(w: StatusView)
    ensures
        spec_parse_status(ser_status(w)) == Some(w),
{
    let s = ser_status(w);
    assert(s.subrange(0, s.len() as int) =~= s);
    lemma_p_status(s, 0, w);
}

/// Round trip for validation errors: parsing the serialized form yields the
/// original value.
pub proof fn lemma_validation_error_round_trip(v: ValidationErrorView)
    ensures
        spec_parse_validation_error(ser_validation_error(v)) == Some(v),
{
    let s = ser_validation_error(v);
    assert(s.subrange(0, s.len() as int) =~= s);
    let l1 = "{\"type\":\"INVALID_FORMAT\",\"message\":"@;
    assert(ser_validation_error(v) == l1 + ser_str(v.message()) + seq!['}']);
    assert(ser_validation_error(v) =~= l1 + (ser_str(v.message()) + seq!['}']));
    lemma_peel(s, 0, l1, ser_str(v.message()) + seq!['}']);
    assert(p_lit(s, 0, l1) == Some(l1.len() as int));
    let j0 = l1.len() as int;
    lemma_peel(s, j0, ser_str(v.message()), seq!['}']);
    lemma_p_string(s, j0, v.message());
    let j1 = j0 + ser_str(v.message()).len();
    lemma_char_at(s, j1, '}');
    assert(p_validation_error(s, 0) == Some(
        (ValidationErrorView::InvalidFormat { message: v.message() }, j1 + 1),
    ));
    assert(ValidationErrorView::InvalidFormat { message: v.message() } =~= v);
    assert(j1 + 1 == s.len());
}

/// The literal stands at position `i`; on success the position after it.
fn e_lit(s: &str, i: usize, lit: &str) -> (r: Option<usize>)
    ensures
        r is Some <==> p_lit(s@, i as int, lit@) is Some,
        r matches Some(j) ==> p_lit(s@, i as int, lit@) == Some(j as int),
{
    let n = s.unicode_len();
    let ln = lit.unicode_len();
    if i > n || ln > n - i {
        return None;
    }
    let mut k: usize = 0;
    while k < ln
        invariant
            0 <= k <= ln,
            i + ln <= n,
            n == s@.len(),
            ln == lit@.len(),
            forall|t: int| 0 <= t < k ==> s@[i + t] == lit@[t],
        decreases ln - k,
    {
        if s.get_char(i + k) != lit.get_char(k) {
            proof {
                assert(s@.subrange(i as int, i + lit@.len())[k as int] == s@[i + k]);
                assert(s@.subrange(i as int, i + lit@.len()) != lit@);
            }
            return None;
        }
        k = k + 1;
    }
    proof {
        assert(s@.subrange(i as int, i + lit@.len()) =~= lit@);
    }
    Some(i + ln)
}

/// The body of a string literal, closing quote included.
fn e_str_content(s: &str, i: usize) -> (r: Option<(String, usize)>)
    ensures
        r is Some <==> p_str_content(s@, i as int) is Some,
        r matches Some(p) ==> p_str_content(s@, i as int) == Some((p.0@, p.1 as int)),
    decreases s@.len() - i,
{
    let n = s.unicode_len();
    if i >= n {
        return None;
    }
    let c = s.get_char(i);
    if c == '"' {
        let out = String::new();
        proof {
            assert(out@ =~= Seq::<char>::empty());
        }
        Some((out, i + 1))
    } else if c == '\\' {
        if i + 1 < n {
            let c2 = s.get_char(i + 1);
            let dec = if c2 == '"' {
                Some('"')
            } else if c2 == '\\' {
                Some('\\')
            } else if c2 == 'n' {
                Some('\n')
            } else if c2 == 't' {
                Some('\t')
            } else if c2 == 'r' {
                Some('\r')
            } else {
                None
            };
            match dec {
                Some(d) => match e_str_content(s, i + 2) {
                    Some((rest, j)) => {
                        let mut out = String::new();
                        push_char(&mut out, d);
                        out.append(rest.as_str());
                        proof {
                            assert(out@ =~= seq![d] + rest@);
                        }
                        Some((out, j))
                    },
                    None => None,
                },
                None => None,
            }
        } else {
            None
        }
    } else {
        match e_str_content(s, i + 1) {
            Some((rest, j)) => {
                let mut out = String::new();
                push_char(&mut out, c);
                out.append(rest.as_str());
                proof {
                    assert(out@ =~= seq![c] + rest@);
                }
                Some((out, j))
            },
            None => None,
        }
    }
}

/// A whole string literal, opening quote included.
fn e_string(s: &str, i: usize) -> (r: Option<(String, usize)>)
    ensures
        r is Some <==> p_string(s@, i as int) is Some,
        r matches Some(p) ==> p_string(s@, i as int) == Some((p.0@, p.1 as int)),
{
    let n = s.unicode_len();
    if i < n {
        if s.get_char(i) == '"' {
            e_str_content(s, i + 1)
        } else {
            None
        }
    } else {
        None
    }
}

/// The code named by a wire token, if any.
fn code_from_token(t: &str) -> (r: Option<Code>)
    ensures
        r == code_of_token(t@),
{
    if str_eq(t, "CANCELLED") {
        Some(Code::Cancelled)
    } else if str_eq(t, "UNKNOWN") {
        Some(Code::Unknown)
    } else if str_eq(t, "INVALID_ARGUMENT") {
        Some(Code::InvalidArgument)
    } else if str_eq(t, "DEADLINE_EXCEEDED") {
        Some(Code::DeadlineExceeded)
    } else if str_eq(t, "NOT_FOUND") {
        Some(Code::NotFound)
    } else if str_eq(t, "ALREADY_EXISTS") {
        Some(Code::AlreadyExists)
    } else if str_eq(t, "PERMISSION_DENIED") {
        Some(Code::PermissionDenied)
    } else if str_eq(t, "UNAUTHENTICATED") {
        Some(Code::Unauthenticated)
    } else if str_eq(t, "RESOURCE_EXHAUSTED") {
        Some(Code::ResourceExhausted)
    } else if str_eq(t, "FAILED_PRECONDITION") {
        Some(Code::FailedPrecondition)
    } else if str_eq(t, "ABORTED") {
        Some(Code::Aborted)
    } else if str_eq(t, "OUT_OF_RANGE") {
        Some(Code::OutOfRange)
    } else if str_eq(t, "UNIMPLEMENTED") {
        Some(Code::Unimplemented)
    } else if str_eq(t, "INTERNAL") {
        Some(Code::Internal)
    } else if str_eq(t, "UNAVAILABLE") {
        Some(Code::Unavailable)
    } else if str_eq(t, "DATA_LOSS") {
        Some(Code::DataLoss)
    } else {
        None
    }
}

/// One or more metadata entries, comma-separated.
fn e_md_entries(s: &str, i: usize) -> (r: Option<(Vec<(String, String)>, usize)>)
    ensures
        r is Some <==> p_md_entries(s@, i as int) is Some,
        r matches Some(p) ==> p_md_entries(s@, i as int) == Some(
            (p.0@.map_values(|kv: (String, String)| (kv.0@, kv.1@)), p.1 as int),
        ),
    decreases s@.len() - i,
{
    let n = s.unicode_len();
    match e_string(s, i) {
        None => None,
        Some((k, j1)) => {
            if j1 < n && s.get_char(j1) == ':' {
                match e_string(s, j1 + 1) {
                    None => None,
                    Some((v, j2)) => {
                        if j2 < n && s.get_char(j2) == ',' {
                            if j2 + 1 > i {
                                match e_md_entries(s, j2 + 1) {
                                    None => None,
                                    Some((rest, j3)) => {
                                        let ghost restmap = rest@.map_values(
                                            |kv: (String, String)| (kv.0@, kv.1@),
                                        );
                                        let mut out = rest;
                                        out.insert(0, (k, v));
                                        proof {
                                            assert(out@.map_values(
                                                |kv: (String, String)| (kv.0@, kv.1@),
                                            ) =~= seq![(out@[0].0@, out@[0].1@)] + restmap);
                                        }
                                        Some((out, j3))
                                    },
                                }
                            } else {
                                None
                            }
                        } else {
                            let mut one: Vec<(String, String)> = Vec::new();
                            one.push((k, v));
                            proof {
                                assert(one@.map_values(
                                    |kv: (String, String)| (kv.0@, kv.1@),
                                ) =~= seq![(one@[0].0@, one@[0].1@)]);
                            }
                            Some((one, j2))
                        }
                    },
                }
            } else {
                None
            }
        },
    }
}

/// An `ErrorInfo` object.
fn e_error_info(s: &str, i: usize) -> (r: Option<(ErrorInfo, usize)>)
    ensures
        r is Some <==> p_error_info(s@, i as int) is Some,
        r matches Some(p) ==> p_error_info(s@, i as int) == Some((p.0@, p.1 as int)),
{
    let n = s.unicode_len();
    match e_lit(s, i, "{\"type\":\"ERROR_INFO\",\"reason\":") {
        None => None,
        Some(j0) => match e_string(s, j0) {
            None => None,
            Some((reason, j1)) => match e_lit(s, j1, ",\"domain\":") {
                None => None,
                Some(j2) => match e_string(s, j2) {
                    None => None,
                    Some((domain, j3)) => {
                        if j3 < n && s.get_char(j3) == '}' {
                            let info = ErrorInfo { reason, domain, metadata: Vec::new() };
                            proof {
                                assert(info@.metadata =~= Seq::<(Seq<char>, Seq<char>)>::empty());
                                assert(info@ =~= ErrorInfoView {
                                    reason: info.reason@,
                                    domain: info.domain@,
                                    metadata: Seq::empty(),
                                });
                            }
                            Some((info, j3 + 1))
                        } else {
                            match e_lit(s, j3, ",\"metadata\":{") {
                                None => None,
                                Some(j4) => match e_md_entries(s, j4) {
                                    None => None,
                                    Some((md, j5)) => match e_lit(s, j5, "}}") {
                                        None => None,
                                        Some(j6) => {
                                            let info = ErrorInfo { reason, domain, metadata: md };
                                            Some((info, j6))
                                        },
                                    },
                                },
                            }
                        }
                    },
                },
            },
        },
    }
}

/// One or more detail records, comma-separated.
fn e_details_list(s: &str, i: usize) -> (r: Option<(Vec<ErrorDetails>, usize)>)
    ensures
        r is Some <==> p_details_list(s@, i as int) is Some,
        r matches Some(p) ==> p_details_list(s@, i as int) == Some(
            (p.0@.map_values(|d: ErrorDetails| d@), p.1 as int),
        ),
    decreases s@.len() - i,
{
    let n = s.unicode_len();
    match e_error_info(s, i) {
        None => None,
        Some((e, j)) => {
            let d = ErrorDetails::ErrorInfo(e);
            if j < n && s.get_char(j) == ',' {
                if j + 1 > i {
                    match e_details_list(s, j + 1) {
                        None => None,
                        Some((rest, j2)) => {
                            let ghost restmap = rest@.map_values(|x: ErrorDetails| x@);
                            let mut out = rest;
                            out.insert(0, d);
                            proof {
                                assert(out@.map_values(|x: ErrorDetails| x@) =~= seq![out@[0]@]
                                    + restmap);
                            }
                            Some((out, j2))
                        },
                    }
                } else {
                    None
                }
            } else {
                let mut one: Vec<ErrorDetails> = Vec::new();
                one.push(d);
                proof {
                    assert(one@.map_values(|x: ErrorDetails| x@) =~= seq![one@[0]@]);
                }
                Some((one, j))
            }
        },
    }
}

/// A `Status` object starting at `i`.
fn e_status(s: &str, i: usize) -> (r: Option<(Status, usize)>)
    ensures
        r is Some <==> p_status(s@, i as int) is Some,
        r matches Some(p) ==> p_status(s@, i as int) == Some((p.0@, p.1 as int)),
{
    let n = s.unicode_len();
    match e_lit(s, i, "{\"code\":") {
        None => None,
        Some(j0) => match e_string(s, j0) {
            None => None,
            Some((tok, j1)) => match code_from_token(tok.as_str()) {
                None => None,
                Some(code) => match e_lit(s, j1, ",\"message\":") {
                    None => None,
                    Some(j2) => match e_string(s, j2) {
                        None => None,
                        Some((msg, j3)) => {
                            if j3 < n && s.get_char(j3) == '}' {
                                let details = StatusDetails {
                                    message: msg,
                                    error_details: Vec::new(),
                                };
                                proof {
                                    assert(details@.error_details
                                        =~= Seq::<ErrorDetailsView>::empty());
                                }
                                let st = Status::from_code(code, details);
                                Some((st, j3 + 1))
                            } else {
                                match e_lit(s, j3, ",\"error_details\":[") {
                                    None => None,
                                    Some(j4) => match e_details_list(s, j4) {
                                        None => None,
                                        Some((ds, j5)) => match e_lit(s, j5, "]}") {
                                            None => None,
                                            Some(j6) => {
                                                let details = StatusDetails {
                                                    message: msg,
                                                    error_details: ds,
                                                };
                                                let st = Status::from_code(code, details);
                                                Some((st, j6))
                                            },
                                        },
                                    },
                                }
                            }
                        },
                    },
                },
            },
        },
    }
}

impl Status {
    /// Parses the canonical serialized form back into a status value. The
    /// whole input must be one serialized `Status` object.
    pub fn from_json(s: &str) -> (r: Option<Status>)
        ensures
            r is Some <==> spec_parse_status(s@) is Some,
            r matches Some(v) ==> spec_parse_status(s@) == Some(v@),
    {
        let n = s.unicode_len();
        match e_status(s, 0) {
            None => None,
            Some((v, j)) => {
                if j == n {
                    Some(v)
                } else {
                    None
                }
            },
        }
    }
}

impl ValidationError {
    /// Parses the canonical serialized form back into a validation error.
    /// The whole input must be one serialized `ValidationError` object.
    pub fn from_json(s: &str) -> (r: Option<ValidationError>)
        ensures
            r is Some <==> spec_parse_validation_error(s@) is Some,
            r matches Some(v) ==> spec_parse_validation_error(s@) == Some(v@),
    {
        let n = s.unicode_len();
        match e_lit(s, 0, "{\"type\":\"INVALID_FORMAT\",\"message\":") {
            None => None,
            Some(j0) => match e_string(s, j0) {
                None => None,
                Some((msg, j1)) => {
                    if j1 < n && s.get_char(j1) == '}' && j1 + 1 == n {
                        Some(ValidationError::InvalidFormat { message: msg })
                    } else {
                        None
                    }
                },
            },
        }
    }
}

} // verus!
