//! Newtypes for the identifiers that the report carries.

use vstd::prelude::*;

verus! {

/// The `client_id` that a request log attributes to a client.
pub struct ClientId(String);

impl View for ClientId {
    type V = Seq<char>;

    closed spec fn view(&self) -> Seq<char> {
        self.0@
    }
}

impl ClientId {
    pub fn new(id: String) -> (r: Self)
        ensures
            r@ == id@,
    {
        ClientId(id)
    }

    pub fn as_str(&self) -> (r: &str)
        ensures
            r@ == self@,
    {
        self.0.as_str()
    }
}

impl Clone for ClientId {
    fn clone(&self) -> (r: Self)
        ensures
            r@ == self@,
    {
        ClientId(self.0.clone())
    }
}

/// The API path a request was made against.
pub struct Endpoint(String);

impl View for Endpoint {
    type V = Seq<char>;

    closed spec fn view(&self) -> Seq<char> {
        self.0@
    }
}

impl Endpoint {
    pub fn new(path: String) -> (r: Self)
        ensures
            r@ == path@,
    {
        Endpoint(path)
    }

    pub fn as_str(&self) -> (r: &str)
        ensures
            r@ == self@,
    {
        self.0.as_str()
    }
}

impl Clone for Endpoint {
    fn clone(&self) -> (r: Self)
        ensures
            r@ == self@,
    {
        Endpoint(self.0.clone())
    }
}

/// An HTTP status code; the records that carry one hold a code from 100 to 599.
#[derive(Clone, Copy, Debug)]
pub struct StatusCode(u16);

impl View for StatusCode {
    type V = u16;

    closed spec fn view(&self) -> u16 {
        self.0
    }
}

impl StatusCode {
    pub fn new(code: u16) -> (r: Self)
        ensures
            r@ == code,
    {
        StatusCode(code)
    }

    pub fn code(&self) -> (r: u16)
        ensures
            r == self@,
    {
        self.0
    }
}

} // verus!
