//! How a request that is not carried out is answered.
use vstd::prelude::*;

verus! {

broadcast use vstd::string::group_string_axioms;

/// Why a request is not carried out.
#[derive(Clone, Copy, PartialEq, Eq, Structural, Debug)]
pub enum Reason {
    BadRequest,
    Unauthorized,
    NotFound,
    OversellUnconfirmed,
    Unprocessable,
    Internal,
}

impl Reason {
    /// The HTTP status of the answer.
    pub open spec fn status_number(self) -> u16 {
        match self {
            Reason::BadRequest => 400,
            Reason::Unauthorized => 401,
            Reason::NotFound => 404,
            Reason::OversellUnconfirmed => 409,
            Reason::Unprocessable => 422,
            Reason::Internal => 500,
        }
    }

    /// The code in the answer's error envelope.
    pub open spec fn code_text(self) -> Seq<char> {
        match self {
            Reason::BadRequest => "bad_request"@,
            Reason::Unauthorized => "unauthorized"@,
            Reason::NotFound => "not_found"@,
            Reason::OversellUnconfirmed => "oversell_confirmation_required"@,
            Reason::Unprocessable => "unprocessable"@,
            Reason::Internal => "internal_error"@,
        }
    }

    /// The HTTP status of the answer.
    pub fn status(self) -> (r: u16)
        ensures
            r == self.status_number(),
    {
        match self {
            Reason::BadRequest => 400,
            Reason::Unauthorized => 401,
            Reason::NotFound => 404,
            Reason::OversellUnconfirmed => 409,
            Reason::Unprocessable => 422,
            Reason::Internal => 500,
        }
    }

    /// The code in the answer's error envelope.
    pub fn code(self) -> (r: &'static str)
        ensures
            r@ == self.code_text(),
    {
        match self {
            Reason::BadRequest => "bad_request",
            Reason::Unauthorized => "unauthorized",
            Reason::NotFound => "not_found",
            Reason::OversellUnconfirmed => "oversell_confirmation_required",
            Reason::Unprocessable => "unprocessable",
            Reason::Internal => "internal_error",
        }
    }
}

/// A refusal: what every answer other than a success carries.
#[derive(Debug)]
pub struct Refusal {
    pub reason: Reason,
    pub message: String,
}

impl View for Refusal {
    type V = (Reason, Seq<char>);

    open spec fn view(&self) -> (Reason, Seq<char>) {
        (self.reason, self.message@)
    }
}

/// The view of the refusal in a result whose success is `T`.
pub open spec fn refused<T>(r: Result<T, Refusal>) -> Result<T, (Reason, Seq<char>)> {
    match r {
        Ok(v) => Ok(v),
        Err(e) => Err(e@),
    }
}

/// A request that cannot be read.
pub fn bad_request(message: &str) -> (r: Refusal)
    ensures
        r@ == (Reason::BadRequest, message@),
{
    Refusal { reason: Reason::BadRequest, message: message.to_owned() }
}

/// A request for what is not there.
pub fn not_found(message: &str) -> (r: Refusal)
    ensures
        r@ == (Reason::NotFound, message@),
{
    Refusal { reason: Reason::NotFound, message: message.to_owned() }
}

/// A request that can be read and cannot be carried out.
pub fn unprocessable(message: &str) -> (r: Refusal)
    ensures
        r@ == (Reason::Unprocessable, message@),
{
    Refusal { reason: Reason::Unprocessable, message: message.to_owned() }
}

/// What is wrong with a request is answered in the four hundreds, what went wrong
/// here with a five hundred, and no two reasons alike.
pub proof fn every_reason_has_its_own_answer(a: Reason, b: Reason)
    ensures
        a.status_number() == b.status_number() ==> a == b,
        a != Reason::Internal ==> 400 <= a.status_number() < 500,
        Reason::Internal.status_number() == 500,
        a == Reason::BadRequest ==> a.status_number() == 400,
        a == Reason::Unauthorized ==> a.status_number() == 401,
        a == Reason::NotFound ==> a.status_number() == 404,
        a == Reason::OversellUnconfirmed ==> a.status_number() == 409,
        a == Reason::Unprocessable ==> a.status_number() == 422,
{
}

} // verus!
