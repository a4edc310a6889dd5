//! Collecting the fields of an inbound `multipart/form-data` request into what
//! a multipart handler receives: a JSON object of the text fields, and the
//! encoded file parts.
use crate::fileparts::{append_bytes, encodable, encode_parts, FilePart, FileParts, PartView};
use crate::headers::{json_object_text, json_text_of, pairs_view};
use vstd::prelude::*;
use vstd::string::*;
use vstd::utf8::*;

verus! {

pub open spec fn unique_keys(es: Seq<(Seq<char>, Seq<char>)>) -> bool {
    forall|i: int, j: int| 0 <= i < j < es.len() ==> (#[trigger] es[i]).0 != (#[trigger] es[j]).0
}

/// `es` with `name` set to `value`: the entry of that name takes the new
/// value in place, or a new entry comes last.
pub open spec fn with_field(es: Seq<(Seq<char>, Seq<char>)>, name: Seq<char>, value: Seq<char>) -> Seq<(Seq<char>, Seq<char>)> {
    if exists|i: int| 0 <= i < es.len() && (#[trigger] es[i]).0 == name {
        let i = choose|i: int| 0 <= i < es.len() && (#[trigger] es[i]).0 == name;
        es.update(i, (name, value))
    } else {
        es.push((name, value))
    }
}

/// Named text values, one per name, in the order the names first came.
pub struct TextFields {
    pub entries: Vec<(String, String)>,
}

impl TextFields {
    pub open spec fn view_entries(&self) -> Seq<(Seq<char>, Seq<char>)> {
        pairs_view(self.entries@)
    }

    pub open spec fn well_formed(&self) -> bool {
        unique_keys(self.view_entries())
    }

    pub fn new() -> (r: TextFields)
        ensures
            r.view_entries() == Seq::<(Seq<char>, Seq<char>)>::empty(),
            r.well_formed(),
    {
        let r = TextFields { entries: Vec::new() };
        assert(r.view_entries() =~= Seq::<(Seq<char>, Seq<char>)>::empty());
        r
    }

    /// Sets `name` to `value`; a later value of a name replaces an earlier one.
    pub fn insert(&mut self, name: String, value: String)
        requires
            old(self).well_formed(),
        ensures
            final(self).well_formed(),
            final(self).view_entries() == with_field(old(self).view_entries(), name@, value@),
    {
        let ghost es = self.view_entries();
        let ghost entry = (name@, value@);
        match self.position(&name) {
            Some(i) => {
                proof {
                    assert(exists|k: int| 0 <= k < es.len() && (#[trigger] es[k]).0 == name@);
                    let k = choose|k: int| 0 <= k < es.len() && (#[trigger] es[k]).0 == name@;
                    if k != i {
                        if k < i {
                            assert(es[k].0 != es[i as int].0);
                        } else {
                            assert(es[i as int].0 != es[k].0);
                        }
                    }
                    assert(with_field(es, name@, value@) == es.update(i as int, entry));
                }
                self.entries.set(i, (name, value));
                assert(self.view_entries() =~= es.update(i as int, entry));
            },
            None => {
                self.entries.push((name, value));
                assert(self.view_entries() =~= es.push(entry));
            },
        }
    }

    /// Where the entry named `name` stands.
    fn position(&self, name: &String) -> (r: Option<usize>)
        requires
            self.well_formed(),
        ensures
            r matches Some(i) ==> i < self.entries@.len() && self.view_entries()[i as int].0 == name@,
            r is None ==> forall|j: int|
                0 <= j < self.entries@.len() ==> (#[trigger] self.view_entries()[j]).0 != name@,
    {
        let n = self.entries.len();
        let mut i: usize = 0;
        while i < n
            invariant
                n == self.entries@.len(),
                i <= n,
                forall|j: int| 0 <= j < i ==> (#[trigger] self.view_entries()[j]).0 != name@,
            decreases n - i,
        {
            if self.entries[i].0 == *name {
                return Some(i);
            }
            i = i + 1;
        }
        None
    }

    /// The fields as the text of a JSON object.
    pub fn to_json(&self) -> (r: String)
        ensures
            r@ == json_text_of(self.view_entries()),
    {
        json_object_text(&self.entries)
    }
}

/// What to read from one field of an inbound multipart request.
#[derive(Clone, Copy, Debug, PartialEq, Eq, Structural)]
pub enum FieldKind {
    /// A file: the field has a name, a file name and a content type.
    File,
    /// A text field: it has a name, and no file name or no content type.
    Text,
    /// The field has no name; the request is refused.
    Nameless,
}

pub open spec fn kind_of(has_name: bool, has_file_name: bool, has_content_type: bool) -> FieldKind {
    if !has_name {
        FieldKind::Nameless
    } else if has_file_name && has_content_type {
        FieldKind::File
    } else {
        FieldKind::Text
    }
}

pub fn field_kind(name: &Option<String>, file_name: &Option<String>, content_type: &Option<String>) -> (r: FieldKind)
    ensures
        r == kind_of(name is Some, file_name is Some, content_type is Some),
{
    match (name, file_name, content_type) {
        (None, _, _) => FieldKind::Nameless,
        (Some(_), Some(_), Some(_)) => FieldKind::File,
        _ => FieldKind::Text,
    }
}

/// The fields of an inbound multipart request read so far.
pub struct MultipartBody {
    pub fields: TextFields,
    pub files: FileParts,
}

impl MultipartBody {
    pub open spec fn well_formed(&self) -> bool {
        self.fields.well_formed()
    }

    pub fn new() -> (r: MultipartBody)
        ensures
            r.well_formed(),
            r.fields.view_entries() == Seq::<(Seq<char>, Seq<char>)>::empty(),
            r.files@ == Seq::<PartView>::empty(),
    {
        let files = FileParts { inner: Vec::new() };
        assert(files@ =~= Seq::<PartView>::empty());
        MultipartBody { fields: TextFields::new(), files }
    }

    pub fn add_text(&mut self, name: String, text: String)
        requires
            old(self).well_formed(),
        ensures
            final(self).well_formed(),
            final(self).fields.view_entries() == with_field(
                old(self).fields.view_entries(),
                name@,
                text@,
            ),
            final(self).files@ == old(self).files@,
    {
        self.fields.insert(name, text);
    }

    pub fn add_file(&mut self, file_name: String, mime_str: String, bytes: Vec<u8>)
        requires
            old(self).well_formed(),
        ensures
            final(self).well_formed(),
            final(self).fields.view_entries() == old(self).fields.view_entries(),
            final(self).files@ == old(self).files@.push(
                PartView { file_name: file_name@, mime_str: mime_str@, bytes: bytes@ },
            ),
    {
        let ghost prev = self.files@;
        self.files.inner.push(FilePart { file_name, mime_str, bytes });
        assert(self.files@ =~= prev.push(
            PartView { file_name: file_name@, mime_str: mime_str@, bytes: bytes@ },
        ));
    }

    /// The handler's `body` (the UTF-8 of the JSON object of the text fields)
    /// and its `fileparts` (their encoding); `None` where a file is too large
    /// for the encoding's length fields.
    pub fn finish(&self) -> (r: Option<(Vec<u8>, Vec<u8>)>)
        ensures
            r is Some <==> encodable(self.files@),
            r matches Some(p) ==> p.0@ == encode_utf8(json_text_of(self.fields.view_entries()))
                && p.1@ == encode_parts(self.files@),
    {
        if !self.files.fits() {
            return None;
        }
        let text = self.fields.to_json();
        let mut body: Vec<u8> = Vec::new();
        append_bytes(&mut body, text.as_str().as_bytes());
        Some((body, self.files.to_vec()))
    }
}

} // verus!
