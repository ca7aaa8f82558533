use vstd::prelude::*;

use crate::edit::{DocEdit, compute_edit, spec_last_line_len, spec_line_count};
use crate::formatting::{format_claude_settings, spec_format};
use crate::store::DocumentStore;

verus! {

/// What the server advertises when a session starts: full-document
/// synchronization and a document formatter, nothing negotiated.
pub struct Capabilities {
    pub full_document_sync: bool,
    pub formatting_provider: bool,
}

/// The server's request surface: lifecycle notifications keep the
/// document store current, and a formatting request answers from the
/// latest snapshot.
pub struct ProtocolHandler {
    pub documents: DocumentStore,
}

impl View for ProtocolHandler {
    type V = Map<Seq<char>, Seq<char>>;

    open spec fn view(&self) -> Map<Seq<char>, Seq<char>> {
        self.documents@
    }
}

impl ProtocolHandler {
    /// A fresh session has no open document.
    pub fn new() -> (r: ProtocolHandler)
        ensures
            r@ =~= Map::<Seq<char>, Seq<char>>::empty(),
    {
        ProtocolHandler { documents: DocumentStore::new() }
    }

    /// The fixed capability advertisement.
    pub fn initialize(&self) -> (r: Capabilities)
        ensures
            r.full_document_sync,
            r.formatting_provider,
    {
        Capabilities { full_document_sync: true, formatting_provider: true }
    }

    /// Shutting down always succeeds: the store lives only as long as
    /// the process, so there is nothing to release.
    pub fn shutdown(&self) -> (r: Result<(), ()>)
        ensures
            r is Ok,
    {
        Ok(())
    }

    /// An opened document is stored under its identifier.
    pub fn did_open(&mut self, uri: &str, text: String)
        ensures
            final(self)@ == old(self)@.insert(uri@, text@),
    {
        self.documents.put(uri, text);
    }

    /// A change notification carries full texts; only the last one
    /// reported counts. An empty notification changes nothing.
    pub fn did_change(&mut self, uri: &str, contents: Vec<String>)
        ensures
            contents@.len() == 0 ==> final(self)@ == old(self)@,
            contents@.len() > 0 ==> final(self)@ == old(self)@.insert(
                uri@,
                contents@.last()@,
            ),
    {
        let mut contents = contents;
        match contents.pop() {
            Some(text) => self.documents.put(uri, text),
            None => (),
        }
    }

    /// A closed document leaves the store; closing an unknown one is a
    /// no-op.
    pub fn did_close(&mut self, uri: &str)
        ensures
            final(self)@ == old(self)@.remove(uri@),
    {
        self.documents.remove(uri);
    }

    /// Answer a formatting request from the stored snapshot: no edits
    /// for an unknown document, a malformed one, or one already in
    /// canonical form; otherwise one whole-document replacement
    /// carrying the canonical text.
    pub fn formatting(&self, uri: &str) -> (r: Option<DocEdit>)
        ensures
            !self@.contains_key(uri@) ==> r is None,
            self@.contains_key(uri@) ==> match spec_format(self@[uri@]) {
                None => r is None,
                Some(f) => if f == self@[uri@] {
                    r is None
                } else {
                    match r {
                        Some(e) => {
                            &&& e.start_line == 0
                            &&& e.start_col == 0
                            &&& e.end_line == spec_line_count(self@[uri@])
                            &&& e.end_col == spec_last_line_len(self@[uri@])
                            &&& e.new_text@ == f
                        },
                        None => false,
                    }
                },
            },
    {
        match self.documents.get(uri) {
            None => None,
            Some(content) => match format_claude_settings(content.as_str()) {
                Err(_) => None,
                Ok(formatted) => {
                    if formatted.eq(&content) {
                        None
                    } else {
                        Some(compute_edit(content.as_str(), formatted))
                    }
                },
            },
        }
    }
}

} // verus!
