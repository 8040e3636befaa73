//! Handler parameters read from the request body: JSON, and values read by
//! a type of the application's own.
use crate::error::{BeforeHandlerError, Error, ParseHandlerParamError};
use crate::request::{HttpRequest, RequestBody, TryFromRequest};
use bytes::Bytes;
use vstd::prelude::*;

verus! {

/// A JSON body, or a value to answer with as JSON.
#[derive(Debug)]
pub struct Json<T>(pub T);

impl<T> Json<T> {
    /// The value inside.
    pub fn into_inner(self) -> (res: T)
        ensures
            res == self.0,
    {
        self.0
    }
}

impl<T> std::ops::Deref for Json<T> {
    type Target = T;

    fn deref(&self) -> (res: &T)
        ensures
            *res == self.0,
    {
        &self.0
    }
}

/// The bytes a JSON parameter is parsed from: the request's body when it
/// was read whole; any other request is refused.
pub fn json_body(req: &HttpRequest) -> (res: Result<&Bytes, Error>)
    ensures
        match req.body {
            Some(RequestBody::Simple(b)) => res is Ok && *res->Ok_0 == b,
            _ => res is Err && res->Err_0 matches Error::BeforeHandler(
                BeforeHandlerError::ParseHandlerParamError(ParseHandlerParamError::BodyNotExist),
            ),
        },
{
    match &req.body {
        Some(RequestBody::Simple(body)) => Ok(body),
        _ => Err(Error::before_handler_incompatible_request_body_type()),
    }
}

/// A value that a type of the application reads from the request.
pub struct FromRequest<T>(pub T);

impl<T> FromRequest<T> {
    /// The value read.
    pub fn into_inner(self) -> (res: T)
        ensures
            res == self.0,
    {
        self.0
    }
}

impl<T> std::ops::Deref for FromRequest<T> {
    type Target = T;

    fn deref(&self) -> (res: &T)
        ensures
            *res == self.0,
    {
        &self.0
    }
}

impl<'a, T: TryFromRequest<'a>> TryFromRequest<'a> for FromRequest<T> {
    fn try_from_request(req: &'a mut HttpRequest) -> (res: Result<FromRequest<T>, Error>)
        ensures
            exists|q: &'a mut HttpRequest, r: Result<T, Error>|
                {
                    &&& *q == *old(req)
                    &&& *final(q) == *final(req)
                    &&& call_ensures(T::try_from_request, (q,), r)
                    &&& res == match r {
                        Ok(v) => Ok::<FromRequest<T>, Error>(FromRequest(v)),
                        Err(e) => Err::<FromRequest<T>, Error>(e),
                    }
                },
    {
        let r = T::try_from_request(req);
        match r {
            Ok(v) => Ok(FromRequest(v)),
            Err(e) => Err(e),
        }
    }
}

} // verus!
