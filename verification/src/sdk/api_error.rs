use vstd::prelude::*;

verus! {

/// The body of an error response of the game's API.
#[derive(Debug)]
pub struct ApiErrorResponseSchema {
    error: ApiErrorSchema,
}

/// An error reported by the game's API: its code and its message.
#[derive(Debug)]
pub struct ApiErrorSchema {
    code: i32,
    message: String,
}

/// Errors of requests made to the game's API.
pub trait ApiRequestError {}

impl ApiErrorSchema {
    pub fn new(code: i32, message: String) -> (res: Self)
        ensures
            res.code() == code,
            res.message()@ == message@,
    {
        ApiErrorSchema { code, message }
    }

    pub closed spec fn code(&self) -> i32 {
        self.code
    }

    pub closed spec fn message(&self) -> String {
        self.message
    }

    pub fn get_code(&self) -> (res: i32)
        ensures
            res == self.code(),
    {
        self.code
    }

    pub fn get_message(&self) -> (res: &String)
        ensures
            res@ == self.message()@,
    {
        &self.message
    }
}

impl ApiErrorResponseSchema {
    pub fn new(error: ApiErrorSchema) -> (res: Self)
        ensures
            res.error() == error,
    {
        ApiErrorResponseSchema { error }
    }

    pub closed spec fn error(&self) -> ApiErrorSchema {
        self.error
    }

    pub fn get_error(&self) -> (res: &ApiErrorSchema)
        ensures
            *res == self.error(),
    {
        &self.error
    }
}

} // verus!
