//! Parsed `multipart/form-data` payloads: text fields and uploaded files,
//! looked up by name.

use vstd::prelude::*;

use crate::chars::str_eq;

verus! {

/// One uploaded file from a multipart form.
pub struct UploadedFile {
    /// The form field name.
    pub name: String,
    /// The client-provided filename, if the part declared one.
    pub filename: Option<String>,
    /// The part's content type, if declared.
    pub content_type: Option<String>,
    /// The file content (buffered; the whole request is subject to the
    /// body size limit).
    pub bytes: Vec<u8>,
}

/// A parsed `multipart/form-data` body: text fields plus files, each in
/// order of appearance.
pub struct FormData {
    fields: Vec<(String, String)>,
    files: Vec<UploadedFile>,
}

/// The index of the first name equal to `name`.
pub open spec fn first_with_name(names: Seq<Seq<char>>, name: Seq<char>) -> Option<int> {
    if exists|i: int| 0 <= i < names.len() && names[i] == name {
        Some(
            choose|i: int|
                0 <= i < names.len() && names[i] == name && forall|j: int|
                    0 <= j < i ==> names[j] != name,
        )
    } else {
        None
    }
}

proof fn lemma_first_with_name(names: Seq<Seq<char>>, name: Seq<char>, i: int)
    requires
        0 <= i < names.len(),
        names[i] == name,
        forall|j: int| 0 <= j < i ==> names[j] != name,
    ensures
        first_with_name(names, name) == Some(i),
{
    assert(exists|i: int| 0 <= i < names.len() && names[i] == name);
    let k = choose|k: int|
        0 <= k < names.len() && names[k] == name && forall|j: int| 0 <= j < k ==> names[j] != name;
    if k < i {
        assert(names[k] != name);
    }
    if k > i {
        assert(names[i] != name);
    }
}

impl FormData {
    /// The names of the text fields, in order.
    pub closed spec fn field_names(&self) -> Seq<Seq<char>> {
        Seq::new(self.fields@.len(), |i: int| self.fields@[i].0@)
    }

    /// The values of the text fields, in order.
    pub closed spec fn field_values(&self) -> Seq<Seq<char>> {
        Seq::new(self.fields@.len(), |i: int| self.fields@[i].1@)
    }

    /// The field names of the files, in order.
    pub closed spec fn file_names(&self) -> Seq<Seq<char>> {
        Seq::new(self.files@.len(), |i: int| self.files@[i].name@)
    }

    /// The files, in order.
    pub closed spec fn file_list(&self) -> Seq<UploadedFile> {
        self.files@
    }

    /// A form with these text fields and files.
    pub fn new(fields: Vec<(String, String)>, files: Vec<UploadedFile>) -> (f: FormData)
        ensures
            f.field_names() == Seq::new(fields@.len(), |i: int| fields@[i].0@),
            f.field_values() == Seq::new(fields@.len(), |i: int| fields@[i].1@),
            f.file_list() == files@,
    {
        FormData { fields, files }
    }

    /// The value of the first text field called `name`.
    pub fn field(&self, name: &str) -> (r: Option<&str>)
        ensures
            match first_with_name(self.field_names(), name@) {
                Some(i) => r matches Some(v) && v@ == self.field_values()[i],
                None => r is None,
            },
    {
        let mut i: usize = 0;
        while i < self.fields.len()
            invariant
                i <= self.fields@.len(),
                forall|j: int| 0 <= j < i ==> #[trigger] self.field_names()[j] != name@,
            decreases self.fields@.len() - i,
        {
            if str_eq(self.fields[i].0.as_str(), name) {
                proof {
                    assert(self.field_names()[i as int] == name@);
                    lemma_first_with_name(self.field_names(), name@, i as int);
                }
                return Some(self.fields[i].1.as_str());
            }
            i = i + 1;
        }
        assert(!exists|i: int| 0 <= i < self.field_names().len() && self.field_names()[i] == name@);
        None
    }

    /// All text fields, in order of appearance.
    pub fn fields(&self) -> (r: &[(String, String)])
        ensures
            r@.len() == self.field_names().len(),
            forall|i: int| 0 <= i < r@.len() ==> #[trigger] r@[i].0@ == self.field_names()[i]
                && r@[i].1@ == self.field_values()[i],
    {
        self.fields.as_slice()
    }

    /// The first file uploaded under `name`.
    pub fn file(&self, name: &str) -> (r: Option<&UploadedFile>)
        ensures
            match first_with_name(self.file_names(), name@) {
                Some(i) => r == Some(&self.file_list()[i]),
                None => r is None,
            },
    {
        let mut i: usize = 0;
        while i < self.files.len()
            invariant
                i <= self.files@.len(),
                forall|j: int| 0 <= j < i ==> #[trigger] self.file_names()[j] != name@,
            decreases self.files@.len() - i,
        {
            if str_eq(self.files[i].name.as_str(), name) {
                proof {
                    assert(self.file_names()[i as int] == name@);
                    lemma_first_with_name(self.file_names(), name@, i as int);
                }
                return Some(&self.files[i]);
            }
            i = i + 1;
        }
        assert(!exists|i: int| 0 <= i < self.file_names().len() && self.file_names()[i] == name@);
        None
    }

    /// All files (multi-file inputs appear repeatedly under one name).
    pub fn files(&self) -> (r: &[UploadedFile])
        ensures
            r@ == self.file_list(),
    {
        self.files.as_slice()
    }
}

impl Default for FormData {
    fn default() -> (f: FormData)
        ensures
            f.field_names().len() == 0,
            f.file_list().len() == 0,
    {
        FormData { fields: Vec::new(), files: Vec::new() }
    }
}

} // verus!
