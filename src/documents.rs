//! The open manifests: their current text and version, kept in step with the
//! editor's open, change, save and close notifications.
use vstd::prelude::*;
use vstd::hash_map::StringHashMap;
use vstd::string::*;
use crate::text::{apply_changes, changes_result, copy_bytes, EditError, TextChange};

verus! {

/// The text of an open document and the version the editor gave it.
#[derive(Clone, Debug)]
pub struct FileInfo {
    pub text: Vec<u8>,
    pub version: i32,
}

impl FileInfo {
    pub fn new(text: Vec<u8>, version: i32) -> (r: Self)
        ensures
            r.text@ == text@,
            r.version == version,
    {
        FileInfo { text, version }
    }
}

/// A diagnostic pass to run: the text to read, and the document version to report.
#[derive(Clone, Debug)]
pub struct Pass {
    pub text: Vec<u8>,
    pub version: Option<i32>,
}

/// `r` asks for a pass over text `t`, reported as `version`.
pub open spec fn is_pass(r: Option<Pass>, t: Seq<u8>, version: Option<i32>) -> bool {
    r matches Some(p) && p.text@ == t && p.version == version
}

/// The file name of a manifest.
pub open spec fn manifest_name() -> Seq<char> {
    "Cargo.toml"@
}

/// The last segment of `path` is the manifest's file name.
pub open spec fn is_manifest_path_of(path: Seq<char>) -> bool {
    ||| path == manifest_name()
    ||| (path.len() > manifest_name().len() && path[path.len() - manifest_name().len() - 1] == '/'
        && path.subrange(path.len() - manifest_name().len(), path.len() as int) == manifest_name())
}

/// Whether the last segment of the URI path `path` names a manifest.
pub fn is_manifest_path(path: &str) -> (r: bool)
    ensures
        r == is_manifest_path_of(path@),
{
    let name = "Cargo.toml".to_owned();
    let n = path.unicode_len();
    let m = name.as_str().unicode_len();
    if n < m {
        assert(path@ != manifest_name()) by {
            if path@ == manifest_name() {
                assert(path@.len() == name@.len());
            }
        }
        return false;
    }
    let tail = path.substring_char(n - m, n).to_owned();
    let same = tail == name;
    if !same {
        assert(path@ != manifest_name()) by {
            if path@ == manifest_name() {
                assert(path@.subrange(0, n as int) =~= path@);
            }
        }
        return false;
    }
    if n == m {
        assert(path@ =~= path@.subrange(0, n as int));
        return true;
    }
    path.get_char(n - m - 1) == '/'
}

/// The open documents, by URI: each with its text and version.
pub struct DocumentStore {
    docs: StringHashMap<FileInfo>,
}

impl View for DocumentStore {
    type V = Map<Seq<char>, (Seq<u8>, i32)>;

    closed spec fn view(&self) -> Map<Seq<char>, (Seq<u8>, i32)> {
        self.docs@.map_values(|f: FileInfo| (f.text@, f.version))
    }
}

impl DocumentStore {
    /// A store with no open document.
    pub fn new() -> (r: Self)
        ensures
            r@ == Map::<Seq<char>, (Seq<u8>, i32)>::empty(),
    {
        let r = DocumentStore { docs: StringHashMap::new() };
        assert(r@ =~= Map::<Seq<char>, (Seq<u8>, i32)>::empty());
        r
    }

    /// Opens `uri` with `text` at `version`, and asks for a pass over that text.
    pub fn open(&mut self, uri: String, text: Vec<u8>, version: i32) -> (r: Pass)
        ensures
            final(self)@ == old(self)@.insert(uri@, (text@, version)),
            r.text@ == text@,
            r.version == Some(version),
    {
        let copy = copy_bytes(&text);
        let ghost t = text@;
        self.docs.insert(uri, FileInfo::new(text, version));
        assert(self@ =~= old(self)@.insert(uri@, (t, version)));
        Pass { text: copy, version: Some(version) }
    }

    /// Applies the editor's `changes` to `uri` and moves it to `version`, then asks for
    /// a pass over the new text. A document that is not open is left alone; where a
    /// change does not apply, the document stays as it was and the error is returned.
    pub fn change(&mut self, uri: &str, changes: &Vec<TextChange>, version: i32) -> (r: Result<
        Option<Pass>,
        EditError,
    >)
        ensures
            !old(self)@.contains_key(uri@) ==> r == Ok::<Option<Pass>, EditError>(None) && final(self)@
                == old(self)@,
            old(self)@.contains_key(uri@) ==> match changes_result(old(self)@[uri@].0, changes@) {
                Ok(t) => final(self)@ == old(self)@.insert(uri@, (t, version)) && (r matches Ok(
                    pass,
                ) && is_pass(pass, t, Some(version))),
                Err(e) => r == Err::<Option<Pass>, EditError>(e) && final(self)@ == old(self)@,
            },
    {
        let mut text = match self.docs.get(uri) {
            Some(doc) => copy_bytes(&doc.text),
            None => {
                return Ok(None);
            },
        };
        match apply_changes(&mut text, changes) {
            Ok(()) => {
                let copy = copy_bytes(&text);
                let ghost t = text@;
                self.docs.insert(uri.to_owned(), FileInfo::new(text, version));
                assert(self@ =~= old(self)@.insert(uri@, (t, version)));
                Ok(Some(Pass { text: copy, version: Some(version) }))
            },
            Err(e) => Err(e),
        }
    }

    /// A save of `uri`, with the saved text where the editor sends it. An open document
    /// takes that text and is passed over with its version; an open document saved
    /// without text is passed over as it stands; a document that is not open runs no
    /// pass.
    pub fn save(&mut self, uri: &str, text: Option<Vec<u8>>) -> (r: Option<Pass>)
        ensures
            old(self)@.contains_key(uri@) ==> match text {
                Some(t) => final(self)@ == old(self)@.insert(uri@, (t@, old(self)@[uri@].1))
                    && is_pass(r, t@, Some(old(self)@[uri@].1)),
                None => final(self)@ == old(self)@ && is_pass(
                    r,
                    old(self)@[uri@].0,
                    Some(old(self)@[uri@].1),
                ),
            },
            !old(self)@.contains_key(uri@) ==> final(self)@ == old(self)@ && r is None,
    {
        let (version, current) = match self.docs.get(uri) {
            Some(doc) => (doc.version, copy_bytes(&doc.text)),
            None => {
                return None;
            },
        };
        match text {
            Some(t) => {
                let copy = copy_bytes(&t);
                let ghost tv = t@;
                self.docs.insert(uri.to_owned(), FileInfo::new(t, version));
                assert(self@ =~= old(self)@.insert(uri@, (tv, version)));
                Some(Pass { text: copy, version: Some(version) })
            },
            None => Some(Pass { text: current, version: Some(version) }),
        }
    }

    /// Whether `uri` is open at `version`: a pass over that version is still current,
    /// and its diagnostics may be published.
    pub fn is_current(&self, uri: &str, version: i32) -> (r: bool)
        ensures
            r == (self@.contains_key(uri@) && self@[uri@].1 == version),
    {
        match self.docs.get(uri) {
            Some(doc) => doc.version == version,
            None => false,
        }
    }

    /// Closes `uri`. Returns whether it was open, which is when its diagnostics are to
    /// be cleared.
    pub fn close(&mut self, uri: &str) -> (r: bool)
        ensures
            r == old(self)@.contains_key(uri@),
            final(self)@ == old(self)@.remove(uri@),
    {
        let was_open = self.docs.contains_key(uri);
        self.docs.remove(uri);
        assert(self@ =~= old(self)@.remove(uri@));
        was_open
    }
}

/// After a close, the document is gone: closing it again clears nothing, and neither a
/// change nor a save of it runs a pass, until it is opened again.
pub proof fn lemma_close_is_final(m: Map<Seq<char>, (Seq<u8>, i32)>, uri: Seq<char>)
    ensures
        !m.remove(uri).contains_key(uri),
        m.remove(uri).remove(uri) == m.remove(uri),
{
    assert(m.remove(uri).remove(uri) =~= m.remove(uri));
}

} // verus!
