use vstd::prelude::*;

verus! {

/// `dashmap::DashMap`, the concurrency-safe map holding the open
/// documents; every use goes through the wrappers below.
#[verifier::external_type_specification]
#[verifier::external_body]
#[verifier::reject_recursive_types(K)]
#[verifier::reject_recursive_types(V)]
#[verifier::reject_recursive_types(S)]
pub struct ExDashMap<K, V, S>(dashmap::DashMap<K, V, S>);

/// The entries a document map holds: each open document's text, by its
/// identifier.
pub uninterp spec fn dashmap_entries(m: dashmap::DashMap<String, String>) -> Map<
    Seq<char>,
    Seq<char>,
>;

/// The open documents of a session: an identifier maps to the full
/// text most recently reported for it.
pub struct DocumentStore {
    pub map: dashmap::DashMap<String, String>,
}

impl View for DocumentStore {
    type V = Map<Seq<char>, Seq<char>>;

    open spec fn view(&self) -> Map<Seq<char>, Seq<char>> {
        dashmap_entries(self.map)
    }
}

impl DocumentStore {
    /// Relies on `dashmap::DashMap::new`: the fresh map has no entry.
    #[verifier::external_body]
    pub(crate) fn new() -> (r: DocumentStore)
        ensures
            forall|k: Seq<char>| !dashmap_entries(r.map).contains_key(k),
    {
        DocumentStore { map: dashmap::DashMap::new() }
    }

    /// Relies on `dashmap::DashMap::insert`: inserts the entry or
    /// overwrites the one with the same key.
    #[verifier::external_body]
    pub(crate) fn put(&mut self, id: &str, text: String)
        ensures
            dashmap_entries(final(self).map) == dashmap_entries(old(self).map).insert(id@, text@),
    {
        self.map.insert(id.to_string(), text);
    }

    /// Relies on `dashmap::DashMap::get`: returns a copy of the
    /// entry's text exactly when the key is present.
    #[verifier::external_body]
    pub(crate) fn get(&self, id: &str) -> (r: Option<String>)
        ensures
            match r {
                Some(t) => dashmap_entries(self.map).contains_key(id@) && t@ == dashmap_entries(
                    self.map,
                )[id@],
                None => !dashmap_entries(self.map).contains_key(id@),
            },
    {
        self.map.get(id).map(|e| e.value().clone())
    }

    /// Relies on `dashmap::DashMap::remove`: deletes the entry if it
    /// is present; absent keys are left alone.
    #[verifier::external_body]
    pub(crate) fn remove(&mut self, id: &str)
        ensures
            dashmap_entries(final(self).map) == dashmap_entries(old(self).map).remove(id@),
    {
        self.map.remove(id);
    }
}

} // verus!
