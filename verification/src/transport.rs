//! Conversion to and from a transport-layer status representation.
//!
//! A transport status carries a code and a message only. Converting a
//! `Status` to it is total and code-preserving, and passes the message
//! through exactly; detail records are not carried across this conversion —
//! rich details are expected to travel via the transport's own mechanism.

use vstd::prelude::*;

use crate::model::Code;
use crate::model::ErrorDetailsView;
use crate::model::Status;
use crate::model::StatusDetails;

verus! {

/// A transport-layer status: one code-named constructor per code, a message,
/// and nothing else.
#[derive(Debug, Clone, PartialEq, Eq)]
pub struct TransportStatus {
    pub code: Code,
    pub message: String,
}

/// Mathematical view of a `TransportStatus`.
#[verifier::ext_equal]
pub struct TransportStatusView {
    pub code: Code,
    pub message: Seq<char>,
}

impl View for TransportStatus {
    type V = TransportStatusView;

    open spec fn view(&self) -> TransportStatusView {
        TransportStatusView { code: self.code, message: self.message@ }
    }
}

impl TransportStatus {
    pub fn cancelled(message: String) -> (r: TransportStatus)
        ensures
            r@ == (TransportStatusView { code: Code::Cancelled, message: message@ }),
    {
        TransportStatus { code: Code::Cancelled, message }
    }

    pub fn unknown(message: String) -> (r: TransportStatus)
        ensures
            r@ == (TransportStatusView { code: Code::Unknown, message: message@ }),
    {
        TransportStatus { code: Code::Unknown, message }
    }

    pub fn invalid_argument(message: String) -> (r: TransportStatus)
        ensures
            r@ == (TransportStatusView { code: Code::InvalidArgument, message: message@ }),
    {
        TransportStatus { code: Code::InvalidArgument, message }
    }

    pub fn deadline_exceeded(message: String) -> (r: TransportStatus)
        ensures
            r@ == (TransportStatusView { code: Code::DeadlineExceeded, message: message@ }),
    {
        TransportStatus { code: Code::DeadlineExceeded, message }
    }

    pub fn not_found(message: String) -> (r: TransportStatus)
        ensures
            r@ == (TransportStatusView { code: Code::NotFound, message: message@ }),
    {
        TransportStatus { code: Code::NotFound, message }
    }

    pub fn already_exists(message: String) -> (r: TransportStatus)
        ensures
            r@ == (TransportStatusView { code: Code::AlreadyExists, message: message@ }),
    {
        TransportStatus { code: Code::AlreadyExists, message }
    }

    pub fn permission_denied(message: String) -> (r: TransportStatus)
        ensures
            r@ == (TransportStatusView { code: Code::PermissionDenied, message: message@ }),
    {
        TransportStatus { code: Code::PermissionDenied, message }
    }

    pub fn unauthenticated(message: String) -> (r: TransportStatus)
        ensures
            r@ == (TransportStatusView { code: Code::Unauthenticated, message: message@ }),
    {
        TransportStatus { code: Code::Unauthenticated, message }
    }

    pub fn resource_exhausted(message: String) -> (r: TransportStatus)
        ensures
            r@ == (TransportStatusView { code: Code::ResourceExhausted, message: message@ }),
    {
        TransportStatus { code: Code::ResourceExhausted, message }
    }

    pub fn failed_precondition(message: String) -> (r: TransportStatus)
        ensures
            r@ == (TransportStatusView { code: Code::FailedPrecondition, message: message@ }),
    {
        TransportStatus { code: Code::FailedPrecondition, message }
    }

    pub fn aborted(message: String) -> (r: TransportStatus)
        ensures
            r@ == (TransportStatusView { code: Code::Aborted, message: message@ }),
    {
        TransportStatus { code: Code::Aborted, message }
    }

    pub fn out_of_range(message: String) -> (r: TransportStatus)
        ensures
            r@ == (TransportStatusView { code: Code::OutOfRange, message: message@ }),
    {
        TransportStatus { code: Code::OutOfRange, message }
    }

    pub fn unimplemented(message: String) -> (r: TransportStatus)
        ensures
            r@ == (TransportStatusView { code: Code::Unimplemented, message: message@ }),
    {
        TransportStatus { code: Code::Unimplemented, message }
    }

    pub fn internal(message: String) -> (r: TransportStatus)
        ensures
            r@ == (TransportStatusView { code: Code::Internal, message: message@ }),
    {
        TransportStatus { code: Code::Internal, message }
    }

    pub fn unavailable(message: String) -> (r: TransportStatus)
        ensures
            r@ == (TransportStatusView { code: Code::Unavailable, message: message@ }),
    {
        TransportStatus { code: Code::Unavailable, message }
    }

    pub fn data_loss(message: String) -> (r: TransportStatus)
        ensures
            r@ == (TransportStatusView { code: Code::DataLoss, message: message@ }),
    {
        TransportStatus { code: Code::DataLoss, message }
    }
}

impl Status {
    /// Total, code-preserving conversion to the transport status: each
    /// variant maps to the identically-named transport constructor, passed
    /// the payload's message only. Detail records are not carried across.
    pub fn to_transport(&self) -> (r: TransportStatus)
        ensures
            r@.code == self@.code,
            r@.message == self@.details.message,
    {
        let message = self.details().message.clone();
        match self {
            Status::Cancelled(_) => TransportStatus::cancelled(message),
            Status::Unknown(_) => TransportStatus::unknown(message),
            Status::InvalidArgument(_) => TransportStatus::invalid_argument(message),
            Status::DeadlineExceeded(_) => TransportStatus::deadline_exceeded(message),
            Status::NotFound(_) => TransportStatus::not_found(message),
            Status::AlreadyExists(_) => TransportStatus::already_exists(message),
            Status::PermissionDenied(_) => TransportStatus::permission_denied(message),
            Status::Unauthenticated(_) => TransportStatus::unauthenticated(message),
            Status::ResourceExhausted(_) => TransportStatus::resource_exhausted(message),
            Status::FailedPrecondition(_) => TransportStatus::failed_precondition(message),
            Status::Aborted(_) => TransportStatus::aborted(message),
            Status::OutOfRange(_) => TransportStatus::out_of_range(message),
            Status::Unimplemented(_) => TransportStatus::unimplemented(message),
            Status::Internal(_) => TransportStatus::internal(message),
            Status::Unavailable(_) => TransportStatus::unavailable(message),
            Status::DataLoss(_) => TransportStatus::data_loss(message),
        }
    }

    /// Conversion back from a transport status: the code and message are
    /// kept, and the detail list of the result is empty, since the transport
    /// form carries no detail records.
    pub fn from_transport(t: TransportStatus) -> (r: Status)
        ensures
            r@.code == t@.code,
            r@.details.message == t@.message,
            r@.details.error_details == Seq::<ErrorDetailsView>::empty(),
    {
        Status::from_code(t.code, StatusDetails::from_error(t.message))
    }
}

} // verus!
