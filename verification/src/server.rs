//! The server: what it does with a request, in the plain way of one file per
//! path, and in the way of routes under `server`.

use crate::text::{chars_match_at, chars_of, ends_with};
use crate::utils::{create_response, response_text};
use vstd::prelude::*;

pub mod answers;
pub mod cgi;
pub mod chunks;
pub mod config;
pub mod connection;
pub mod effects;
pub mod handle;
pub mod methods;
pub mod protocol;
pub mod requests;
pub mod responses;
pub mod routes;
pub mod sessions;

verus! {

/// What answers a path in the plain way.
#[derive(Debug, PartialEq, Eq)]
pub enum Plan {
    /// The script of this path is run.
    Script(String),
    /// The file of this path is sent.
    File(String),
}

/// A plan as specifications see it.
pub enum PlanView {
    Script(Seq<char>),
    File(Seq<char>),
}

impl View for Plan {
    type V = PlanView;

    open spec fn view(&self) -> PlanView {
        match self {
            Plan::Script(path) => PlanView::Script(path@),
            Plan::File(path) => PlanView::File(path@),
        }
    }
}

/// What answers a path: a path that ends in `.php` names a script, any
/// other the file of that path under `./static`.
pub open spec fn plan_for(path: Seq<char>) -> PlanView {
    if ends_with(path, ".php"@) {
        PlanView::Script(path)
    } else {
        PlanView::File("./static"@ + path)
    }
}

/// What answers a path.
pub fn plan_request(path: &str) -> (plan: Plan)
    ensures
        plan@ == plan_for(path@),
{
    let chars = chars_of(path);
    let mark = chars_of(".php");
    let at: usize = if chars.len() >= mark.len() {
        chars.len() - mark.len()
    } else {
        0
    };
    if chars.len() >= mark.len() && chars_match_at(chars.as_slice(), mark.as_slice(), at) {
        Plan::Script(String::from_str(path))
    } else {
        let mut file = String::from_str("./static");
        file.append(path);
        Plan::File(file)
    }
}

/// The file that holds the page for what is not found.
pub fn missing_page() -> (path: &'static str)
    ensures
        path@ == "./static/errors/404.html"@,
{
    "./static/errors/404.html"
}

/// The response for a file: its content where it could be read, the page
/// for what is not found where not.
pub open spec fn file_answer(content: Option<Seq<char>>, page: Seq<char>) -> Seq<char> {
    match content {
        Some(text) => response_text(200, "OK"@, text),
        None => response_text(404, "Not Found"@, page),
    }
}

/// The response for a file. `content` is what reading the file gave, `page`
/// what the file of `missing_page` holds.
pub fn answer_file(content: Option<String>, page: String) -> (r: String)
    ensures
        r@ == file_answer(content.deep_view(), page@),
{
    match content {
        Some(text) => create_response(200, "OK", text),
        None => create_response(404, "Not Found", page),
    }
}

/// The response for a script: what the script printed.
pub fn answer_script(output: String) -> (r: String)
    ensures
        r@ == response_text(200, "OK"@, output@),
{
    create_response(200, "OK", output)
}

} // verus!
