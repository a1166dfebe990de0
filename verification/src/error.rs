use vstd::prelude::*;

verus! {

/// A failure reported by the transport collaborator: the request never
/// produced a response body.
#[derive(Debug, Clone)]
pub struct TransportFault {
    pub message: String,
}

/// A failure of a payload decoder: the given JSON text does not denote a
/// value of the expected item type.
#[derive(Debug, Clone)]
pub struct DecodeFault {
    pub message: String,
}

/// Mathematical image of a `ClientError`, used by the contracts.
pub enum ErrorView {
    Transport { message: Seq<char> },
    Malformed,
    Server { status: u64, error_num: u64, message: Seq<char> },
    Schema,
    InvalidCursor { error_num: u64, message: Seq<char> },
}

/// Every way a query operation can fail.
///
/// - `Transport`: the request itself failed; nothing was decoded.
/// - `MalformedResponse`: the response body is not a JSON object carrying
///   the boolean `error` discriminant, or it violates the cursor protocol
///   (`hasMore` true without a continuation id).
/// - `ServerError`: the server itself reported `error: true`, with the
///   HTTP status code, the server's error number and its message.
/// - `SchemaMismatch`: the server reported success but the payload does
///   not fit the caller's expected shape.
/// - `InvalidCursor`: a continuation id was redeemed that the server no
///   longer knows; mapped from a `ServerError` with a 404 status.
#[derive(Debug, Clone)]
pub enum ClientError {
    Transport(TransportFault),
    MalformedResponse,
    ServerError { status: u64, error_num: u64, message: String },
    SchemaMismatch,
    InvalidCursor { error_num: u64, message: String },
}

impl View for ClientError {
    type V = ErrorView;

    open spec fn view(&self) -> ErrorView {
        match self {
            ClientError::Transport(f) => ErrorView::Transport { message: f.message@ },
            ClientError::MalformedResponse => ErrorView::Malformed,
            ClientError::ServerError { status, error_num, message } => ErrorView::Server {
                status: *status,
                error_num: *error_num,
                message: message@,
            },
            ClientError::SchemaMismatch => ErrorView::Schema,
            ClientError::InvalidCursor { error_num, message } => ErrorView::InvalidCursor {
                error_num: *error_num,
                message: message@,
            },
        }
    }
}

} // verus!
