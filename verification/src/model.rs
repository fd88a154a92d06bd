//! The data model: status codes, status values, detail records, and the
//! separate input-validation taxonomy, with their mathematical views.

use vstd::prelude::*;
use vstd::string::StringExecFns;

use crate::text::lemma_lex_total;
use crate::text::lemma_lex_trans_from;
use crate::text::lex_lt;
use crate::text::str_eq;
use crate::text::str_lt;

verus! {

/// The sixteen standardized failure categories a `Status` can carry.
#[derive(Clone, Copy, PartialEq, Eq, Structural, Debug)]
pub enum Code {
    Cancelled,
    Unknown,
    InvalidArgument,
    DeadlineExceeded,
    NotFound,
    AlreadyExists,
    PermissionDenied,
    Unauthenticated,
    ResourceExhausted,
    FailedPrecondition,
    Aborted,
    OutOfRange,
    Unimplemented,
    Internal,
    Unavailable,
    DataLoss,
}

/// The fixed SCREAMING_SNAKE_CASE wire token of each code. Consumers across
/// language boundaries depend on these exact literals.
pub open spec fn spec_code_token(c: Code) -> Seq<char> {
    match c {
        Code::Cancelled => "CANCELLED"@,
        Code::Unknown => "UNKNOWN"@,
        Code::InvalidArgument => "INVALID_ARGUMENT"@,
        Code::DeadlineExceeded => "DEADLINE_EXCEEDED"@,
        Code::NotFound => "NOT_FOUND"@,
        Code::AlreadyExists => "ALREADY_EXISTS"@,
        Code::PermissionDenied => "PERMISSION_DENIED"@,
        Code::Unauthenticated => "UNAUTHENTICATED"@,
        Code::ResourceExhausted => "RESOURCE_EXHAUSTED"@,
        Code::FailedPrecondition => "FAILED_PRECONDITION"@,
        Code::Aborted => "ABORTED"@,
        Code::OutOfRange => "OUT_OF_RANGE"@,
        Code::Unimplemented => "UNIMPLEMENTED"@,
        Code::Internal => "INTERNAL"@,
        Code::Unavailable => "UNAVAILABLE"@,
        Code::DataLoss => "DATA_LOSS"@,
    }
}

impl Code {
    /// The wire token of this code, from the fixed per-variant string table.
    pub fn token(&self) -> (r: &'static str)
        ensures
            r@ == spec_code_token(*self),
    {
        match self {
            Code::Cancelled => "CANCELLED",
            Code::Unknown => "UNKNOWN",
            Code::InvalidArgument => "INVALID_ARGUMENT",
            Code::DeadlineExceeded => "DEADLINE_EXCEEDED",
            Code::NotFound => "NOT_FOUND",
            Code::AlreadyExists => "ALREADY_EXISTS",
            Code::PermissionDenied => "PERMISSION_DENIED",
            Code::Unauthenticated => "UNAUTHENTICATED",
            Code::ResourceExhausted => "RESOURCE_EXHAUSTED",
            Code::FailedPrecondition => "FAILED_PRECONDITION",
            Code::Aborted => "ABORTED",
            Code::OutOfRange => "OUT_OF_RANGE",
            Code::Unimplemented => "UNIMPLEMENTED",
            Code::Internal => "INTERNAL",
            Code::Unavailable => "UNAVAILABLE",
            Code::DataLoss => "DATA_LOSS",
        }
    }
}

/// Machine-readable structured facts about a failure: a short machine code
/// (`reason`), the namespace that defines it (`domain`), and a string-keyed
/// metadata mapping held in canonical (strictly key-sorted) form.
#[derive(Debug, Clone, PartialEq, Eq)]
pub struct ErrorInfo {
    pub reason: String,
    pub domain: String,
    pub metadata: Vec<(String, String)>,
}

/// Mathematical view of an `ErrorInfo`.
#[verifier::ext_equal]
pub struct ErrorInfoView {
    pub reason: Seq<char>,
    pub domain: Seq<char>,
    pub metadata: Seq<(Seq<char>, Seq<char>)>,
}

impl View for ErrorInfo {
    type V = ErrorInfoView;

    open spec fn view(&self) -> ErrorInfoView {
        ErrorInfoView {
            reason: self.reason@,
            domain: self.domain@,
            metadata: self.metadata@.map_values(|p: (String, String)| (p.0@, p.1@)),
        }
    }
}

/// The metadata entries are strictly sorted by key: keys are unique and the
/// representation of a given mapping is canonical.
pub open spec fn md_sorted(md: Seq<(Seq<char>, Seq<char>)>) -> bool {
    forall|i: int, j: int| 0 <= i < j < md.len() ==> lex_lt(md[i].0, md[j].0)
}

/// Insertion of an entry at its place in key order, replacing the first
/// entry with the same key if one is there.
pub open spec fn md_seq_insert(md: Seq<(Seq<char>, Seq<char>)>, k: Seq<char>, v: Seq<char>) -> Seq<
    (Seq<char>, Seq<char>),
>
    decreases md.len(),
{
    if md.len() == 0 {
        seq![(k, v)]
    } else if lex_lt(k, md[0].0) {
        seq![(k, v)] + md
    } else if k == md[0].0 {
        seq![(k, v)] + md.drop_first()
    } else {
        seq![md[0]] + md_seq_insert(md.drop_first(), k, v)
    }
}

/// Every key in the inserted sequence is the new key or one already there.
proof fn lemma_md_insert_keys(md: Seq<(Seq<char>, Seq<char>)>, k: Seq<char>, v: Seq<char>)
    ensures
        forall|x: int|
            0 <= x < md_seq_insert(md, k, v).len() ==> (#[trigger] md_seq_insert(md, k, v)[x].0
                == k || exists|u: int| 0 <= u < md.len() && md[u].0 == md_seq_insert(md, k, v)[x].0),
    decreases md.len(),
{
    let res = md_seq_insert(md, k, v);
    if md.len() == 0 {
    } else if lex_lt(k, md[0].0) {
        assert forall|x: int| 0 <= x < res.len() implies (#[trigger] res[x].0 == k || exists|u: int|
            0 <= u < md.len() && md[u].0 == res[x].0) by {
            if x > 0 {
                assert(md[x - 1].0 == res[x].0);
            }
        }
    } else if k == md[0].0 {
        assert forall|x: int| 0 <= x < res.len() implies (#[trigger] res[x].0 == k || exists|u: int|
            0 <= u < md.len() && md[u].0 == res[x].0) by {
            if x > 0 {
                assert(md[x].0 == res[x].0);
            }
        }
    } else {
        let t = md.drop_first();
        lemma_md_insert_keys(t, k, v);
        let rt = md_seq_insert(t, k, v);
        assert forall|x: int| 0 <= x < res.len() implies (#[trigger] res[x].0 == k || exists|u: int|
            0 <= u < md.len() && md[u].0 == res[x].0) by {
            if x == 0 {
                assert(md[0].0 == res[0].0);
            } else {
                assert(res[x] == rt[x - 1]);
                if rt[x - 1].0 != k {
                    let u = choose|u: int| 0 <= u < t.len() && t[u].0 == rt[x - 1].0;
                    assert(md[u + 1].0 == res[x].0);
                }
            }
        }
    }
}

/// Insertion keeps the entries strictly sorted by key.
proof fn lemma_md_insert_sorted(md: Seq<(Seq<char>, Seq<char>)>, k: Seq<char>, v: Seq<char>)
    requires
        md_sorted(md),
    ensures
        md_sorted(md_seq_insert(md, k, v)),
    decreases md.len(),
{
    let res = md_seq_insert(md, k, v);
    if md.len() == 0 {
        assert(md_sorted(res));
    } else if lex_lt(k, md[0].0) {
        assert forall|p: int, q: int| 0 <= p < q < res.len() implies lex_lt(
            res[p].0,
            res[q].0,
        ) by {
            if p == 0 {
                assert(res[q] == md[q - 1]);
                if q > 1 {
                    assert(lex_lt(md[0].0, md[q - 1].0));
                    lemma_lex_trans_from(k, md[0].0, md[q - 1].0, 0);
                }
            } else {
                assert(res[p] == md[p - 1]);
                assert(res[q] == md[q - 1]);
            }
        }
    } else if k == md[0].0 {
        assert forall|p: int, q: int| 0 <= p < q < res.len() implies lex_lt(
            res[p].0,
            res[q].0,
        ) by {
            if p == 0 {
                assert(res[q] == md[q]);
                assert(lex_lt(md[0].0, md[q].0));
            } else {
                assert(res[p] == md[p]);
                assert(res[q] == md[q]);
            }
        }
    } else {
        let t = md.drop_first();
        assert(md_sorted(t)) by {
            assert forall|p: int, q: int| 0 <= p < q < t.len() implies lex_lt(
                t[p].0,
                t[q].0,
            ) by {
                assert(t[p] == md[p + 1]);
                assert(t[q] == md[q + 1]);
            }
        }
        lemma_md_insert_sorted(t, k, v);
        lemma_md_insert_keys(t, k, v);
        let rt = md_seq_insert(t, k, v);
        lemma_lex_total(k, md[0].0);
        assert(lex_lt(md[0].0, k));
        assert forall|p: int, q: int| 0 <= p < q < res.len() implies lex_lt(
            res[p].0,
            res[q].0,
        ) by {
            if p == 0 {
                assert(res[q] == rt[q - 1]);
                if rt[q - 1].0 == k {
                } else {
                    let u = choose|u: int| 0 <= u < t.len() && t[u].0 == rt[q - 1].0;
                    assert(t[u] == md[u + 1]);
                    assert(lex_lt(md[0].0, md[u + 1].0));
                }
            } else {
                assert(res[p] == rt[p - 1]);
                assert(res[q] == rt[q - 1]);
            }
        }
    }
}

impl ErrorInfo {
    /// The metadata vector is in canonical sorted form.
    pub open spec fn wf(&self) -> bool {
        md_sorted(self@.metadata)
    }

    /// A new record with empty metadata. `reason` and `domain` accept any
    /// string; format validation is deliberately deferred.
    pub fn new(reason: String, domain: String) -> (r: ErrorInfo)
        ensures
            r@.reason == reason@,
            r@.domain == domain@,
            r@.metadata == Seq::<(Seq<char>, Seq<char>)>::empty(),
            r.wf(),
    {
        let r = ErrorInfo { reason, domain, metadata: Vec::new() };
        proof {
            assert(r@.metadata =~= Seq::<(Seq<char>, Seq<char>)>::empty());
        }
        r
    }

    /// A new record with the metadata passed at creation, in canonical
    /// (strictly key-sorted) form.
    pub fn with_metadata(reason: String, domain: String, metadata: Vec<(String, String)>) -> (r:
        ErrorInfo)
        requires
            md_sorted(metadata@.map_values(|p: (String, String)| (p.0@, p.1@))),
        ensures
            r@.reason == reason@,
            r@.domain == domain@,
            r@.metadata == metadata@.map_values(|p: (String, String)| (p.0@, p.1@)),
            r.wf(),
    {
        ErrorInfo { reason, domain, metadata }
    }

    /// Puts one metadata entry in, at its place in key order; an entry under
    /// the same key is replaced. The canonical form is kept.
    pub fn metadata_insert(&mut self, key: String, value: String)
        requires
            old(self).wf(),
        ensures
            final(self)@.reason == old(self)@.reason,
            final(self)@.domain == old(self)@.domain,
            final(self)@.metadata == md_seq_insert(old(self)@.metadata, key@, value@),
            final(self).wf(),
    {
        let ghost mdv = old(self)@.metadata;
        proof {
            assert(mdv.subrange(0, 0) =~= Seq::<(Seq<char>, Seq<char>)>::empty());
            assert(mdv.skip(0) =~= mdv);
            assert(mdv.subrange(0, 0) + md_seq_insert(mdv.skip(0), key@, value@)
                =~= md_seq_insert(mdv, key@, value@));
        }
        let n = self.metadata.len();
        let mut i: usize = 0;
        loop
            invariant
                0 <= i <= n,
                *self == *old(self),
                n == self.metadata.len(),
                mdv == self@.metadata,
                md_sorted(mdv),
                n == mdv.len(),
                md_seq_insert(mdv, key@, value@) == mdv.subrange(0, i as int) + md_seq_insert(
                    mdv.skip(i as int),
                    key@,
                    value@,
                ),
            decreases n - i,
        {
            if i == n {
                proof {
                    assert(mdv.skip(i as int).len() == 0);
                    assert(mdv.subrange(0, i as int) =~= mdv);
                }
                self.metadata.push((key, value));
                proof {
                    assert(self@.metadata =~= mdv + seq![(key@, value@)]);
                    lemma_md_insert_sorted(mdv, key@, value@);
                }
                return;
            }
            if str_lt(key.as_str(), self.metadata[i].0.as_str()) {
                proof {
                    assert(mdv.skip(i as int)[0] == mdv[i as int]);
                    assert(md_seq_insert(mdv.skip(i as int), key@, value@) == seq![(key@, value@)]
                        + mdv.skip(i as int));
                }
                self.metadata.insert(i, (key, value));
                proof {
                    assert(self@.metadata =~= mdv.subrange(0, i as int) + (seq![(key@, value@)]
                        + mdv.skip(i as int)));
                    lemma_md_insert_sorted(mdv, key@, value@);
                }
                return;
            }
            if str_eq(key.as_str(), self.metadata[i].0.as_str()) {
                proof {
                    assert(mdv.skip(i as int)[0] == mdv[i as int]);
                    assert(mdv.skip(i as int).drop_first() =~= mdv.skip(i + 1 as int));
                    assert(md_seq_insert(mdv.skip(i as int), key@, value@) == seq![(key@, value@)]
                        + mdv.skip(i + 1 as int));
                }
                self.metadata.remove(i);
                self.metadata.insert(i, (key, value));
                proof {
                    assert(self@.metadata =~= mdv.subrange(0, i as int) + (seq![(key@, value@)]
                        + mdv.skip(i + 1 as int)));
                    lemma_md_insert_sorted(mdv, key@, value@);
                }
                return;
            }
            proof {
                assert(mdv.skip(i as int)[0] == mdv[i as int]);
                assert(mdv.skip(i as int).drop_first() =~= mdv.skip(i + 1 as int));
                assert(md_seq_insert(mdv.skip(i as int), key@, value@) == seq![mdv[i as int]]
                    + md_seq_insert(mdv.skip(i + 1 as int), key@, value@));
                assert(mdv.subrange(0, i + 1 as int) =~= mdv.subrange(0, i as int) + seq![
                    mdv[i as int],
                ]);
                assert(mdv.subrange(0, i as int) + (seq![mdv[i as int]] + md_seq_insert(
                    mdv.skip(i + 1 as int),
                    key@,
                    value@,
                )) =~= mdv.subrange(0, i + 1 as int) + md_seq_insert(
                    mdv.skip(i + 1 as int),
                    key@,
                    value@,
                ));
            }
            i = i + 1;
        }
    }
}

/// An extensible tagged union of structured auxiliary failure facts. Each
/// variant's wire tag is fixed and independent, so new variants can be added
/// without breaking existing serialized data.
#[derive(Debug, Clone, PartialEq, Eq)]
pub enum ErrorDetails {
    ErrorInfo(ErrorInfo),
}

/// Mathematical view of an `ErrorDetails`.
#[verifier::ext_equal]
pub enum ErrorDetailsView {
    ErrorInfo(ErrorInfoView),
}

impl View for ErrorDetails {
    type V = ErrorDetailsView;

    open spec fn view(&self) -> ErrorDetailsView {
        match self {
            ErrorDetails::ErrorInfo(e) => ErrorDetailsView::ErrorInfo(e@),
        }
    }
}

impl ErrorDetails {
    pub open spec fn wf(&self) -> bool {
        match self {
            ErrorDetails::ErrorInfo(e) => e.wf(),
        }
    }

    /// Wraps an `ErrorInfo` as a detail record.
    pub fn new_error_info(info: ErrorInfo) -> (r: ErrorDetails)
        ensures
            r@ == ErrorDetailsView::ErrorInfo(info@),
            r.wf() == info.wf(),
    {
        ErrorDetails::ErrorInfo(info)
    }
}

/// The code-agnostic payload of a `Status`: a message plus an ordered list
/// of detail records.
#[derive(Debug, Clone, PartialEq, Eq)]
pub struct StatusDetails {
    pub message: String,
    pub error_details: Vec<ErrorDetails>,
}

/// Mathematical view of a `StatusDetails`.
#[verifier::ext_equal]
pub struct StatusDetailsView {
    pub message: Seq<char>,
    pub error_details: Seq<ErrorDetailsView>,
}

impl View for StatusDetails {
    type V = StatusDetailsView;

    open spec fn view(&self) -> StatusDetailsView {
        StatusDetailsView {
            message: self.message@,
            error_details: self.error_details@.map_values(|d: ErrorDetails| d@),
        }
    }
}

impl StatusDetails {
    pub open spec fn wf(&self) -> bool {
        forall|i: int| 0 <= i < self.error_details@.len() ==> self.error_details@[i].wf()
    }

    /// A payload from a message and a list of detail records. Any message is
    /// accepted, including the empty string.
    pub fn new(message: String, error_details: Vec<ErrorDetails>) -> (r: StatusDetails)
        ensures
            r@.message == message@,
            r@.error_details == error_details@.map_values(|d: ErrorDetails| d@),
    {
        StatusDetails { message, error_details }
    }

    /// A payload wrapping the rendered form of an arbitrary underlying
    /// failure: the message is the rendering, the detail list is empty.
    pub fn from_error(message: String) -> (r: StatusDetails)
        ensures
            r@.message == message@,
            r@.error_details == Seq::<ErrorDetailsView>::empty(),
            r.wf(),
    {
        let r = StatusDetails { message, error_details: Vec::new() };
        proof {
            assert(r@.error_details =~= Seq::<ErrorDetailsView>::empty());
        }
        r
    }

    /// Rendering of the payload alone is exactly its message; the code
    /// prefix belongs to the owning `Status`.
    pub fn to_string(&self) -> (r: String)
        ensures
            r@ == self@.message,
    {
        self.message.clone()
    }
}

/// A failure value returned across a service boundary: one variant per
/// standardized code, each carrying exactly one `StatusDetails` payload.
#[derive(Debug, Clone, PartialEq, Eq)]
pub enum Status {
    Cancelled(StatusDetails),
    Unknown(StatusDetails),
    InvalidArgument(StatusDetails),
    DeadlineExceeded(StatusDetails),
    NotFound(StatusDetails),
    AlreadyExists(StatusDetails),
    PermissionDenied(StatusDetails),
    Unauthenticated(StatusDetails),
    ResourceExhausted(StatusDetails),
    FailedPrecondition(StatusDetails),
    Aborted(StatusDetails),
    OutOfRange(StatusDetails),
    Unimplemented(StatusDetails),
    Internal(StatusDetails),
    Unavailable(StatusDetails),
    DataLoss(StatusDetails),
}

/// Mathematical view of a `Status`: the code and the payload. The tag and
/// the code are in one-to-one correspondence by construction.
#[verifier::ext_equal]
pub struct StatusView {
    pub code: Code,
    pub details: StatusDetailsView,
}

impl View for Status {
    type V = StatusView;

    open spec fn view(&self) -> StatusView {
        match self {
            Status::Cancelled(d) => StatusView { code: Code::Cancelled, details: d@ },
            Status::Unknown(d) => StatusView { code: Code::Unknown, details: d@ },
            Status::InvalidArgument(d) => StatusView { code: Code::InvalidArgument, details: d@ },
            Status::DeadlineExceeded(d) => StatusView { code: Code::DeadlineExceeded, details: d@ },
            Status::NotFound(d) => StatusView { code: Code::NotFound, details: d@ },
            Status::AlreadyExists(d) => StatusView { code: Code::AlreadyExists, details: d@ },
            Status::PermissionDenied(d) => StatusView { code: Code::PermissionDenied, details: d@ },
            Status::Unauthenticated(d) => StatusView { code: Code::Unauthenticated, details: d@ },
            Status::ResourceExhausted(d) => StatusView { code: Code::ResourceExhausted, details: d@ },
            Status::FailedPrecondition(d) => StatusView {
                code: Code::FailedPrecondition,
                details: d@,
            },
            Status::Aborted(d) => StatusView { code: Code::Aborted, details: d@ },
            Status::OutOfRange(d) => StatusView { code: Code::OutOfRange, details: d@ },
            Status::Unimplemented(d) => StatusView { code: Code::Unimplemented, details: d@ },
            Status::Internal(d) => StatusView { code: Code::Internal, details: d@ },
            Status::Unavailable(d) => StatusView { code: Code::Unavailable, details: d@ },
            Status::DataLoss(d) => StatusView { code: Code::DataLoss, details: d@ },
        }
    }
}

/// A result whose error side is a `Status`.
pub type StatusResult<T> = Result<T, Status>;

impl Status {
    pub open spec fn wf(&self) -> bool {
        match self {
            Status::Cancelled(d) => d.wf(),
            Status::Unknown(d) => d.wf(),
            Status::InvalidArgument(d) => d.wf(),
            Status::DeadlineExceeded(d) => d.wf(),
            Status::NotFound(d) => d.wf(),
            Status::AlreadyExists(d) => d.wf(),
            Status::PermissionDenied(d) => d.wf(),
            Status::Unauthenticated(d) => d.wf(),
            Status::ResourceExhausted(d) => d.wf(),
            Status::FailedPrecondition(d) => d.wf(),
            Status::Aborted(d) => d.wf(),
            Status::OutOfRange(d) => d.wf(),
            Status::Unimplemented(d) => d.wf(),
            Status::Internal(d) => d.wf(),
            Status::Unavailable(d) => d.wf(),
            Status::DataLoss(d) => d.wf(),
        }
    }

    /// The variant whose code is `code`, wrapping `details`.
    pub fn from_code(code: Code, details: StatusDetails) -> (r: Status)
        ensures
            r@ == (StatusView { code, details: details@ }),
    {
        match code {
            Code::Cancelled => Status::Cancelled(details),
            Code::Unknown => Status::Unknown(details),
            Code::InvalidArgument => Status::InvalidArgument(details),
            Code::DeadlineExceeded => Status::DeadlineExceeded(details),
            Code::NotFound => Status::NotFound(details),
            Code::AlreadyExists => Status::AlreadyExists(details),
            Code::PermissionDenied => Status::PermissionDenied(details),
            Code::Unauthenticated => Status::Unauthenticated(details),
            Code::ResourceExhausted => Status::ResourceExhausted(details),
            Code::FailedPrecondition => Status::FailedPrecondition(details),
            Code::Aborted => Status::Aborted(details),
            Code::OutOfRange => Status::OutOfRange(details),
            Code::Unimplemented => Status::Unimplemented(details),
            Code::Internal => Status::Internal(details),
            Code::Unavailable => Status::Unavailable(details),
            Code::DataLoss => Status::DataLoss(details),
        }
    }

    /// The code of this status.
    pub fn code(&self) -> (r: Code)
        ensures
            r == self@.code,
    {
        match self {
            Status::Cancelled(_) => Code::Cancelled,
            Status::Unknown(_) => Code::Unknown,
            Status::InvalidArgument(_) => Code::InvalidArgument,
            Status::DeadlineExceeded(_) => Code::DeadlineExceeded,
            Status::NotFound(_) => Code::NotFound,
            Status::AlreadyExists(_) => Code::AlreadyExists,
            Status::PermissionDenied(_) => Code::PermissionDenied,
            Status::Unauthenticated(_) => Code::Unauthenticated,
            Status::ResourceExhausted(_) => Code::ResourceExhausted,
            Status::FailedPrecondition(_) => Code::FailedPrecondition,
            Status::Aborted(_) => Code::Aborted,
            Status::OutOfRange(_) => Code::OutOfRange,
            Status::Unimplemented(_) => Code::Unimplemented,
            Status::Internal(_) => Code::Internal,
            Status::Unavailable(_) => Code::Unavailable,
            Status::DataLoss(_) => Code::DataLoss,
        }
    }

    /// The payload of this status.
    pub fn details(&self) -> (r: &StatusDetails)
        ensures
            r@ == self@.details,
    {
        match self {
            Status::Cancelled(d) => d,
            Status::Unknown(d) => d,
            Status::InvalidArgument(d) => d,
            Status::DeadlineExceeded(d) => d,
            Status::NotFound(d) => d,
            Status::AlreadyExists(d) => d,
            Status::PermissionDenied(d) => d,
            Status::Unauthenticated(d) => d,
            Status::ResourceExhausted(d) => d,
            Status::FailedPrecondition(d) => d,
            Status::Aborted(d) => d,
            Status::OutOfRange(d) => d,
            Status::Unimplemented(d) => d,
            Status::Internal(d) => d,
            Status::Unavailable(d) => d,
            Status::DataLoss(d) => d,
        }
    }

    /// Rendering is always `"<CODE>: <message>"`: the code token, a colon
    /// and a space, then the payload's message.
    pub fn to_string(&self) -> (r: String)
        ensures
            r@ == spec_code_token(self@.code) + ": "@ + self@.details.message,
    {
        let mut r = self.code().token().to_owned();
        r.append(": ");
        r.append(self.details().message.as_str());
        r
    }

    pub fn new_cancelled(details: StatusDetails) -> (r: Status)
        ensures
            r@ == (StatusView { code: Code::Cancelled, details: details@ }),
    {
        Status::Cancelled(details)
    }

    pub fn new_unknown(details: StatusDetails) -> (r: Status)
        ensures
            r@ == (StatusView { code: Code::Unknown, details: details@ }),
    {
        Status::Unknown(details)
    }

    pub fn new_invalid_argument(details: StatusDetails) -> (r: Status)
        ensures
            r@ == (StatusView { code: Code::InvalidArgument, details: details@ }),
    {
        Status::InvalidArgument(details)
    }

    pub fn new_deadline_exceeded(details: StatusDetails) -> (r: Status)
        ensures
            r@ == (StatusView { code: Code::DeadlineExceeded, details: details@ }),
    {
        Status::DeadlineExceeded(details)
    }

    pub fn new_not_found(details: StatusDetails) -> (r: Status)
        ensures
            r@ == (StatusView { code: Code::NotFound, details: details@ }),
    {
        Status::NotFound(details)
    }

    pub fn new_already_exists(details: StatusDetails) -> (r: Status)
        ensures
            r@ == (StatusView { code: Code::AlreadyExists, details: details@ }),
    {
        Status::AlreadyExists(details)
    }

    pub fn new_permission_denied(details: StatusDetails) -> (r: Status)
        ensures
            r@ == (StatusView { code: Code::PermissionDenied, details: details@ }),
    {
        Status::PermissionDenied(details)
    }

    pub fn new_unauthenticated(details: StatusDetails) -> (r: Status)
        ensures
            r@ == (StatusView { code: Code::Unauthenticated, details: details@ }),
    {
        Status::Unauthenticated(details)
    }

    pub fn new_resource_exhausted(details: StatusDetails) -> (r: Status)
        ensures
            r@ == (StatusView { code: Code::ResourceExhausted, details: details@ }),
    {
        Status::ResourceExhausted(details)
    }

    pub fn new_failed_precondition(details: StatusDetails) -> (r: Status)
        ensures
            r@ == (StatusView { code: Code::FailedPrecondition, details: details@ }),
    {
        Status::FailedPrecondition(details)
    }

    pub fn new_aborted(details: StatusDetails) -> (r: Status)
        ensures
            r@ == (StatusView { code: Code::Aborted, details: details@ }),
    {
        Status::Aborted(details)
    }

    pub fn new_out_of_range(details: StatusDetails) -> (r: Status)
        ensures
            r@ == (StatusView { code: Code::OutOfRange, details: details@ }),
    {
        Status::OutOfRange(details)
    }

    pub fn new_unimplemented(details: StatusDetails) -> (r: Status)
        ensures
            r@ == (StatusView { code: Code::Unimplemented, details: details@ }),
    {
        Status::Unimplemented(details)
    }

    pub fn new_internal(details: StatusDetails) -> (r: Status)
        ensures
            r@ == (StatusView { code: Code::Internal, details: details@ }),
    {
        Status::Internal(details)
    }

    pub fn new_unavailable(details: StatusDetails) -> (r: Status)
        ensures
            r@ == (StatusView { code: Code::Unavailable, details: details@ }),
    {
        Status::Unavailable(details)
    }

    pub fn new_data_loss(details: StatusDetails) -> (r: Status)
        ensures
            r@ == (StatusView { code: Code::DataLoss, details: details@ }),
    {
        Status::DataLoss(details)
    }

    /// Wraps the rendered form of an arbitrary underlying failure as a
    /// `FailedPrecondition` status with no detail records.
    pub fn from_error_as_failed_precondition(message: String) -> (r: Status)
        ensures
            r@.code == Code::FailedPrecondition,
            r@.details.message == message@,
            r@.details.error_details == Seq::<ErrorDetailsView>::empty(),
            r.wf(),
    {
        Status::FailedPrecondition(StatusDetails::from_error(message))
    }

    /// Wraps the rendered form of an arbitrary underlying failure as an
    /// `InvalidArgument` status with no detail records.
    pub fn from_error_as_invalid_argument(message: String) -> (r: Status)
        ensures
            r@.code == Code::InvalidArgument,
            r@.details.message == message@,
            r@.details.error_details == Seq::<ErrorDetailsView>::empty(),
            r.wf(),
    {
        Status::InvalidArgument(StatusDetails::from_error(message))
    }

    /// Wraps the rendered form of an arbitrary underlying failure as an
    /// `Internal` status with no detail records.
    pub fn from_error_as_internal(message: String) -> (r: Status)
        ensures
            r@.code == Code::Internal,
            r@.details.message == message@,
            r@.details.error_details == Seq::<ErrorDetailsView>::empty(),
            r.wf(),
    {
        Status::Internal(StatusDetails::from_error(message))
    }

    /// Wraps the rendered form of an arbitrary underlying failure as an
    /// `Unknown` status with no detail records.
    pub fn from_error_as_unknown(message: String) -> (r: Status)
        ensures
            r@.code == Code::Unknown,
            r@.details.message == message@,
            r@.details.error_details == Seq::<ErrorDetailsView>::empty(),
            r.wf(),
    {
        Status::Unknown(StatusDetails::from_error(message))
    }
}

/// A narrower, independent taxonomy for input-validation failures.
#[derive(Debug, Clone, PartialEq, Eq)]
pub enum ValidationError {
    InvalidFormat { message: String },
}

/// Mathematical view of a `ValidationError`.
#[verifier::ext_equal]
pub enum ValidationErrorView {
    InvalidFormat { message: Seq<char> },
}

impl ValidationErrorView {
    /// The message carried by the value, whichever variant holds it.
    pub open spec fn message(self) -> Seq<char> {
        match self {
            ValidationErrorView::InvalidFormat { message } => message,
        }
    }
}

impl View for ValidationError {
    type V = ValidationErrorView;

    open spec fn view(&self) -> ValidationErrorView {
        match self {
            ValidationError::InvalidFormat { message } => ValidationErrorView::InvalidFormat {
                message: message@,
            },
        }
    }
}

impl ValidationError {
    /// An input-validation failure: the input did not match the expected
    /// format.
    pub fn new_invalid_format(message: String) -> (r: ValidationError)
        ensures
            r@ == (ValidationErrorView::InvalidFormat { message: message@ }),
    {
        ValidationError::InvalidFormat { message }
    }

    /// Rendering is always `"INVALID_FORMAT: <message>"`.
    pub fn to_string(&self) -> (r: String)
        ensures
            r@ == "INVALID_FORMAT: "@ + self@.message(),
    {
        let mut r = String::new();
        r.append("INVALID_FORMAT: ");
        match self {
            ValidationError::InvalidFormat { message } => {
                r.append(message.as_str());
            },
        }
        r
    }
}

} // verus!
