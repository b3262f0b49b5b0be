//! What a tool was called with.
use crate::json;
use crate::table::Table;
use crate::text;
use vstd::prelude::*;

verus! {

/// One replacement: the text that goes and the text that comes.
#[derive(Debug)]
pub struct EditText {
    pub old: String,
    pub new: String,
}

/// What a tool was called with, as far as it is shown: its text fields and its list of edits.
#[derive(Debug)]
pub struct ToolInput {
    pub fields: Table<String>,
    pub edits: Vec<EditText>,
}

/// The fields that are shown.
pub open spec fn is_shown_field(k: Seq<char>) -> bool {
    ||| k == "command"@
    ||| k == "file_path"@
    ||| k == "notebook_path"@
    ||| k == "url"@
    ||| k == "query"@
    ||| k == "skill"@
    ||| k == "description"@
    ||| k == "pattern"@
    ||| k == "path"@
    ||| k == "old_string"@
    ||| k == "new_string"@
    ||| k == "content"@
}

/// A text, or an empty one.
pub open spec fn or_empty(s: Option<Seq<char>>) -> Seq<char> {
    match s {
        Some(t) => t,
        None => Seq::empty(),
    }
}

/// Where a part of the `n`th edit stands.
pub open spec fn edit_pointer(at: Seq<char>, n: int, part: Seq<char>) -> Seq<char> {
    at + "/edits/"@ + text::decimal(n) + part
}

impl ToolInput {
    /// The text in a field.
    pub open spec fn field(&self, k: Seq<char>) -> Option<Seq<char>> {
        if self.fields@.dom().contains(k) {
            Some(self.fields@[k]@)
        } else {
            None
        }
    }

    /// No fields and no edits.
    pub fn empty() -> (r: Self)
        ensures
            forall|k: Seq<char>| r.field(k) is None,
            r.edits@.len() == 0,
    {
        ToolInput { fields: Table::new(), edits: Vec::new() }
    }

    /// The text in a field.
    pub fn get(&self, k: &str) -> (r: Option<&String>)
        ensures
            match r {
                Some(s) => self.field(k@) == Some(s@),
                None => self.field(k@) is None,
            },
    {
        self.fields.get(k)
    }

    /// The text in a field; empty where there is none.
    pub fn text(&self, k: &str) -> (out: String)
        ensures
            out@ == or_empty(self.field(k@)),
    {
        match self.fields.get(k) {
            Some(s) => s.clone(),
            None => String::new(),
        }
    }

    /// Puts a text into a field.
    pub fn put(&mut self, k: &str, v: &str)
        ensures
            forall|x: Seq<char>|
                final(self).field(x) == if x == k@ {
                    Some(v@)
                } else {
                    old(self).field(x)
                },
            final(self).edits == old(self).edits,
    {
        let _ = self.fields.insert(k.to_owned(), v.to_owned());
    }

    /// The input is the one that stands in a JSON document at a JSON pointer.
    pub open spec fn is_read(&self, doc: Seq<char>, at: Seq<char>) -> bool {
        &&& forall|k: Seq<char>|
            #![trigger self.field(k)]
            self.field(k) == if is_shown_field(k) {
                json::json_text(doc, at + "/"@ + k)
            } else {
                None
            }
        &&& self.edits@.len() == json::item_count(doc, at + "/edits"@)
        &&& forall|i: int|
            0 <= i < self.edits@.len() ==> (#[trigger] self.edits@[i]).old@ == or_empty(
                json::json_text(doc, edit_pointer(at, i, "/old_string"@)),
            ) && self.edits@[i].new@ == or_empty(
                json::json_text(doc, edit_pointer(at, i, "/new_string"@)),
            )
    }

    fn take(&mut self, doc: &str, at: &str, k: &str)
        requires
            old(self).field(k@) is None || old(self).field(k@) == json::json_text(
                doc@,
                at@ + "/"@ + k@,
            ),
        ensures
            forall|x: Seq<char>|
                final(self).field(x) == if x == k@ {
                    json::json_text(doc@, at@ + "/"@ + k@)
                } else {
                    old(self).field(x)
                },
            final(self).edits == old(self).edits,
    {
        let pointer: String = text::cat3(at, "/", k);
        match json::text_at(doc, pointer.as_str()) {
            Some(t) => self.put(k, t.as_str()),
            None => {},
        }
    }

    /// Reads a tool's input from a JSON document, at a JSON pointer.
    pub fn from_json(doc: &str, at: &str) -> (r: Self)
        ensures
            r.is_read(doc@, at@),
    {
        let mut r: ToolInput = ToolInput::empty();
        r.take(doc, at, "command");
        r.take(doc, at, "file_path");
        r.take(doc, at, "notebook_path");
        r.take(doc, at, "url");
        r.take(doc, at, "query");
        r.take(doc, at, "skill");
        r.take(doc, at, "description");
        r.take(doc, at, "pattern");
        r.take(doc, at, "path");
        r.take(doc, at, "old_string");
        r.take(doc, at, "new_string");
        r.take(doc, at, "content");
        proof {
            assert forall|k: Seq<char>| #[trigger]
                r.field(k) == if is_shown_field(k) {
                    json::json_text(doc@, at@ + "/"@ + k)
                } else {
                    None
                } by {}
        }
        let list: String = text::cat(at, "/edits");
        let n: usize = json::count_at(doc, list.as_str());
        let mut edits: Vec<EditText> = Vec::new();
        let mut i: usize = 0;
        while i < n
            invariant
                i <= n,
                edits@.len() == i,
                forall|k: int|
                    0 <= k < i ==> (#[trigger] edits@[k]).old@ == or_empty(
                        json::json_text(doc@, edit_pointer(at@, k, "/old_string"@)),
                    ) && edits@[k].new@ == or_empty(
                        json::json_text(doc@, edit_pointer(at@, k, "/new_string"@)),
                    ),
            decreases n - i,
        {
            let old_text: String = edit_part(doc, at, i, "/old_string");
            let new_text: String = edit_part(doc, at, i, "/new_string");
            edits.push(EditText { old: old_text, new: new_text });
            i = i + 1;
        }
        let out: ToolInput = ToolInput { fields: r.fields, edits };
        proof {
            assert forall|k: Seq<char>| #[trigger]
                out.field(k) == if is_shown_field(k) {
                    json::json_text(doc@, at@ + "/"@ + k)
                } else {
                    None
                } by {
                assert(out.field(k) == r.field(k));
            }
        }
        out
    }
}

fn edit_part(doc: &str, at: &str, n: usize, part: &str) -> (out: String)
    ensures
        out@ == or_empty(json::json_text(doc@, edit_pointer(at@, n as int, part@))),
{
    let mut pointer: String = text::cat(at, "/edits/");
    let k: String = text::number(n as u64);
    pointer.append(k.as_str());
    pointer.append(part);
    match json::text_at(doc, pointer.as_str()) {
        Some(t) => t,
        None => String::new(),
    }
}

} // verus!
