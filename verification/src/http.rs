//! The request and response values that the CMS host exchanges with the blog.
use vstd::prelude::*;

verus! {

/// An HTTP header.
#[derive(Clone, Debug)]
pub struct Header {
    pub name: String,
    pub value: String,
}

/// A named path parameter of a matched route.
#[derive(Clone, Debug)]
pub struct PathParam {
    pub name: String,
    pub value: String,
}

/// A request routed to the blog by the CMS.
#[derive(Clone, Debug)]
pub struct Request {
    pub route_id: String,
    pub method: String,
    pub path: String,
    pub path_params: Vec<PathParam>,
    pub query: Option<String>,
    pub headers: Vec<Header>,
    pub body: Vec<u8>,
    pub identity: Option<String>,
}

/// The blog's answer to a request.
#[derive(Clone, Debug)]
pub struct Response {
    pub status: u16,
    pub headers: Vec<Header>,
    pub body: Vec<u8>,
}

/// The errors that the CMS turns into HTTP error responses.
#[derive(Clone, Debug)]
pub enum PluginError {
    NotFound,
    BadRequest(String),
    Failed(String),
}

/// A header with the given name and value.
pub fn header_of(name: &str, value: &str) -> (h: Header)
    ensures
        h.name@ == name@,
        h.value@ == value@,
{
    Header { name: name.to_owned(), value: value.to_owned() }
}

/// `PluginError::Failed` with the given message.
pub fn failed(message: &str) -> (e: PluginError)
    ensures
        e matches PluginError::Failed(m) && m@ == message@,
{
    PluginError::Failed(message.to_owned())
}

/// `PluginError::BadRequest` with the given message.
pub fn bad_request(message: &str) -> (e: PluginError)
    ensures
        e matches PluginError::BadRequest(m) && m@ == message@,
{
    PluginError::BadRequest(message.to_owned())
}

/// A copy of a string option.
pub fn clone_opt_string(o: &Option<String>) -> (r: Option<String>)
    ensures
        r == *o,
{
    match o {
        Some(s) => Some(s.clone()),
        None => None,
    }
}

} // verus!
