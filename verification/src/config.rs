//! Configuration handed to the core by the external command-line collaborator.

use vstd::prelude::*;

verus! {

/// Settings for one invocation: the file to read, the document title, and
/// whether to wrap the link list in a full HTML document.
pub struct Config {
    /// Path of the input file listing the links.
    pub filename: String,
    /// Text used for the document `<title>` and the `<h1>` heading.
    pub title: String,
    /// When `true`, wrap the list in `<html><head>...</head><body>...</body></html>`;
    /// when `false`, emit only the `<ul>...</ul>` fragment.
    pub full_html_document: bool,
}

impl Config {
    /// A blank configuration: empty filename and title, full-document mode on.
    pub fn new() -> (c: Config)
        ensures
            c.filename@ == Seq::<char>::empty(),
            c.title@ == Seq::<char>::empty(),
            c.full_html_document == true,
    {
        Config { filename: String::new(), title: String::new(), full_html_document: true }
    }
}

} // verus!
