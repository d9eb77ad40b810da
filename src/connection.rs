//! The decisions taken for one connection. The caller reads the request's
//! lines, performs the action handed back, and writes the response.
use vstd::prelude::*;
use crate::request::{parse, parse_request, request_words, ParseError, RequestView};
use crate::response::{
    bad_request, bad_request_response, build_response, not_found, not_found_response,
    ok_response,
};
use crate::text::string_views;

verus! {

/// The file-system path that serves `uri` under the document root `root`.
pub open spec fn resolved(root: Seq<char>, uri: Seq<char>) -> Seq<char> {
    root + uri
}

/// Joins the document root and a request target, verbatim.
pub fn resolve_path(root: &str, uri: &str) -> (r: String)
    ensures
        r@ == resolved(root@, uri@),
{
    let mut path = String::from_str(root);
    path.append(uri);
    path
}

/// Why a connection could not be served with a file.
#[derive(Clone, Copy, Debug, PartialEq, Eq, Structural)]
pub enum Failure {
    Parse(ParseError),
    ResourceNotFound,
}

/// The response that reports `f`: a client error for a request that could
/// not be parsed, not-found for a file that could not be read.
pub open spec fn failure_bytes(f: Failure) -> Seq<u8> {
    match f {
        Failure::Parse(_) => bad_request_response(),
        Failure::ResourceNotFound => not_found_response(),
    }
}

/// Builds the response that reports `f`.
pub fn failure_response(f: Failure) -> (r: Vec<u8>)
    ensures
        r@ == failure_bytes(f),
{
    match f {
        Failure::Parse(_) => bad_request(),
        Failure::ResourceNotFound => not_found(),
    }
}

/// What the connection does after its request has been read.
#[derive(Debug)]
pub enum Action {
    /// Read the file at this path and hand its contents to `on_file`.
    ReadFile(String),
    /// Write these bytes and close the connection.
    Write(Vec<u8>),
}

/// The action that follows reading `lines` under the document root `root`.
pub open spec fn action_for(
    root: Seq<char>,
    lines: Seq<Seq<char>>,
    a: Action,
) -> bool {
    match parse(lines) {
        Ok(req) => a matches Action::ReadFile(path) && path@ == resolved(root, req.uri),
        Err(e) => a matches Action::Write(bytes) && bytes@ == failure_bytes(Failure::Parse(e)),
    }
}

/// Decides what to do with the request made of `lines`: read the file that
/// it names under `root`, or write the response that reports why it was
/// refused.
pub fn on_request(root: &str, lines: Vec<String>) -> (a: Action)
    ensures
        action_for(root@, string_views(lines@), a),
{
    match parse_request(lines) {
        Ok(req) => Action::ReadFile(resolve_path(root, req.uri())),
        Err(e) => Action::Write(failure_response(Failure::Parse(e))),
    }
}

/// The response once the file has been read: its contents in a successful
/// response, or not-found where it could not be read.
pub fn on_file(contents: Option<Vec<u8>>) -> (r: Vec<u8>)
    ensures
        match contents {
            Some(body) => r@ == ok_response(body@),
            None => r@ == failure_bytes(Failure::ResourceNotFound),
        },
{
    match contents {
        Some(body) => build_response(body.as_slice()),
        None => failure_response(Failure::ResourceNotFound),
    }
}

/// A request whose target is `/` is served from `/index.html` under the
/// document root.
pub proof fn lemma_root_target_serves_index(root: Seq<char>, lines: Seq<Seq<char>>, a: Action)
    requires
        request_words(lines).len() >= 3,
        request_words(lines)[1] == "/"@,
        parse(lines) is Ok,
        action_for(root, lines, a),
    ensures
        parse(lines)->Ok_0.uri == "/index.html"@,
        a matches Action::ReadFile(path) && path@ == root + "/index.html"@,
{
}

/// A request whose method is not `GET` is refused with `InvalidMethod`, and
/// no file is read for it: the action is to write the refusal.
pub proof fn lemma_non_get_reads_nothing(root: Seq<char>, lines: Seq<Seq<char>>, a: Action)
    requires
        request_words(lines).len() >= 3,
        request_words(lines)[0] != "GET"@,
        action_for(root, lines, a),
    ensures
        parse(lines) == Err::<RequestView, ParseError>(ParseError::InvalidMethod),
        a matches Action::Write(bytes) && bytes@ == bad_request_response(),
{
}

} // verus!
