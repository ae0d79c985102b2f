//! The dispatcher: one shared execution path for typed REST operations.
//!
//! An endpoint describes one API operation: how to build the request from
//! typed input, which status codes mean success, how to decode the success
//! body, and how each non-success status maps to a typed error variant
//! with a catch-all for everything unanticipated. The dispatcher owns the
//! status-code interpretation; sending bytes over a transport is left to
//! the caller, who feeds the response back in.

use vstd::prelude::*;

verus! {

/// The HTTP verb of an operation.
#[derive(Clone, Copy, PartialEq, Eq, Structural, Debug)]
pub enum Method {
    Get,
    Post,
    Put,
    Patch,
    Delete,
}

/// What one call of an operation came to, when it did not produce a typed
/// output: the request never got a response, the server claimed success
/// with an unusable body, or the server reported a failure that the
/// endpoint's error set describes.
pub enum RequestError<E> {
    /// The request could not be sent or no response arrived.
    Transport(String),
    /// A success status arrived, but its body did not decode as the
    /// output type; the status and raw body are kept verbatim.
    MalformedBody(u16, String),
    /// A non-success status, mapped through the endpoint's error set.
    Endpoint(E),
}

/// One declared API operation.
///
/// The describing functions are pure; their contracts tie each of them to
/// a specification function, so that the dispatcher's outcome is fixed by
/// the endpoint's specification alone. The two proof obligations are the
/// laws every error set owes: a declared status never maps to the
/// catch-all, and an undeclared one always does.
pub trait Endpoint {
    /// Typed input of the operation.
    type Input;

    /// Typed success payload.
    type Output;

    /// The closed error variant set, including its catch-all.
    type Error;

    /// The verb used on the wire.
    spec fn method_spec() -> Method;

    /// The request path built from the input.
    spec fn path_spec(input: &Self::Input) -> Seq<char>;

    /// The request body built from the input, when the operation sends one.
    spec fn body_spec(input: &Self::Input) -> Option<Seq<char>>;

    /// Which status codes count as success.
    spec fn success_spec(status: u16) -> bool;

    /// Whether a success body decodes as the output type.
    spec fn output_ok(body: Seq<char>) -> bool;

    /// What the decoded output says of the body it was decoded from.
    spec fn output_obeys(body: Seq<char>, out: &Self::Output) -> bool;

    /// Which non-success statuses have a declared, named variant.
    spec fn declared_spec(status: u16) -> bool;

    /// What the decoded error variant says of the status and body; an
    /// implementation makes this total over all non-success statuses.
    spec fn error_obeys(status: u16, body: Seq<char>, e: &Self::Error) -> bool;

    /// Whether a variant is the catch-all that carries raw status and body.
    spec fn is_catch_all(e: &Self::Error) -> bool;

    fn method() -> (m: Method)
        ensures
            m == Self::method_spec(),
    ;

    fn path(input: &Self::Input) -> (p: String)
        ensures
            p@ == Self::path_spec(input),
    ;

    fn body(input: &Self::Input) -> (b: Option<String>)
        ensures
            match b {
                Some(t) => Self::body_spec(input) == Some(t@),
                None => Self::body_spec(input) is None,
            },
    ;

    fn is_success(status: u16) -> (r: bool)
        ensures
            r == Self::success_spec(status),
    ;

    fn parse_output(body: &str) -> (r: Option<Self::Output>)
        ensures
            r is Some <==> Self::output_ok(body@),
            match r {
                Some(out) => Self::output_obeys(body@, &out),
                None => true,
            },
    ;

    fn parse_error(status: u16, body: String) -> (e: Self::Error)
        requires
            !Self::success_spec(status),
        ensures
            Self::error_obeys(status, body@, &e),
    ;

    /// Law: a status with a declared variant never maps to the catch-all.
    proof fn declared_never_catch_all(status: u16, body: Seq<char>, e: &Self::Error)
        requires
            !Self::success_spec(status),
            Self::declared_spec(status),
            Self::error_obeys(status, body, e),
        ensures
            !Self::is_catch_all(e),
    ;

    /// Law: a status without a declared variant always maps to the
    /// catch-all, so no response is ever dropped.
    proof fn undeclared_always_catch_all(status: u16, body: Seq<char>, e: &Self::Error)
        requires
            !Self::success_spec(status),
            !Self::declared_spec(status),
            Self::error_obeys(status, body, e),
        ensures
            Self::is_catch_all(e),
    ;
}

/// Interpret one response: exactly one of typed output, malformed-body
/// error, declared variant, or catch-all variant, decided by the status
/// code and the body alone; total over every status code.
pub fn evaluate<EP: Endpoint>(status: u16, body: String) -> (r: Result<
    EP::Output,
    RequestError<EP::Error>,
>)
    ensures
        EP::success_spec(status) && EP::output_ok(body@) ==> (r matches Ok(out)
            && EP::output_obeys(body@, &out)),
        EP::success_spec(status) && !EP::output_ok(body@) ==> (r matches Err(
            RequestError::MalformedBody(st, raw),
        ) && st == status && raw@ == body@),
        !EP::success_spec(status) ==> (r matches Err(RequestError::Endpoint(e)) && EP::error_obeys(
            status,
            body@,
            &e,
        )),
{
    if EP::is_success(status) {
        match EP::parse_output(body.as_str()) {
            Some(out) => Ok(out),
            None => Err(RequestError::MalformedBody(status, body)),
        }
    } else {
        Err(RequestError::Endpoint(EP::parse_error(status, body)))
    }
}

/// Law: every decoded non-success outcome is classified correctly: a
/// declared status never yields the catch-all, an undeclared status
/// always does. Together with [`evaluate`]'s contract this makes the
/// dispatch total: each status code in 100..=599 (indeed, each status at
/// all) lands in exactly one of the four outcome categories.
pub proof fn lemma_error_classification<EP: Endpoint>(status: u16, body: Seq<char>, e: &EP::Error)
    requires
        !EP::success_spec(status),
        EP::error_obeys(status, body, e),
    ensures
        EP::declared_spec(status) ==> !EP::is_catch_all(e),
        !EP::declared_spec(status) ==> EP::is_catch_all(e),
{
    if EP::declared_spec(status) {
        EP::declared_never_catch_all(status, body, e);
    } else {
        EP::undeclared_always_catch_all(status, body, e);
    }
}

/// Build the request triple for an operation: verb, path and optional
/// body, each fixed by the endpoint's specification.
pub fn build_request<EP: Endpoint>(input: &EP::Input) -> (r: (Method, String, Option<String>))
    ensures
        r.0 == EP::method_spec(),
        r.1@ == EP::path_spec(input),
        match r.2 {
            Some(t) => EP::body_spec(input) == Some(t@),
            None => EP::body_spec(input) is None,
        },
{
    (EP::method(), EP::path(input), EP::body(input))
}

} // verus!
