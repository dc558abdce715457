//! JSON values as plain data: event payloads, gate payloads and response
//! bodies are built, stored and compared as [`Json`].
//!
//! Objects list their members in ascending key order, so that two objects
//! with the same members are the same value.

use crate::text;
use vstd::prelude::*;
use vstd::string::*;

verus! {

/// A JSON value. A number that is not an integer is kept as its text.
#[derive(Debug, PartialEq, Eq)]
pub enum Json {
    Null,
    Bool(bool),
    Int(i128),
    Float(String),
    Str(String),
    List(Vec<Json>),
    Object(Vec<(String, Json)>),
}

/// Mathematical view of a [`Json`].
#[verifier::ext_equal]
pub enum JsonView {
    Null,
    Bool(bool),
    Int(int),
    Float(Seq<char>),
    Str(Seq<char>),
    List(Seq<JsonView>),
    Object(Seq<(Seq<char>, JsonView)>),
}

pub open spec fn json_view(j: Json) -> JsonView
    decreases j,
{
    match j {
        Json::Null => JsonView::Null,
        Json::Bool(b) => JsonView::Bool(b),
        Json::Int(n) => JsonView::Int(n as int),
        Json::Float(s) => JsonView::Float(s@),
        Json::Str(s) => JsonView::Str(s@),
        Json::List(v) => JsonView::List(list_view(v@)),
        Json::Object(v) => JsonView::Object(fields_view(v@)),
    }
}

pub open spec fn list_view(s: Seq<Json>) -> Seq<JsonView>
    decreases s,
{
    if s.len() == 0 {
        Seq::empty()
    } else {
        list_view(s.drop_last()).push(json_view(s.last()))
    }
}

pub open spec fn fields_view(s: Seq<(String, Json)>) -> Seq<(Seq<char>, JsonView)>
    decreases s,
{
    if s.len() == 0 {
        Seq::empty()
    } else {
        fields_view(s.drop_last()).push((s.last().0@, json_view(s.last().1)))
    }
}

impl View for Json {
    type V = JsonView;

    open spec fn view(&self) -> JsonView {
        json_view(*self)
    }
}

pub proof fn lemma_fields_view(s: Seq<(String, Json)>)
    ensures
        fields_view(s).len() == s.len(),
        forall|i: int| 0 <= i < s.len() ==> #[trigger] fields_view(s)[i] == (s[i].0@, s[i].1@),
    decreases s.len(),
{
    if s.len() > 0 {
        lemma_fields_view(s.drop_last());
    }
}

pub proof fn lemma_list_view(s: Seq<Json>)
    ensures
        list_view(s).len() == s.len(),
        forall|i: int| 0 <= i < s.len() ==> #[trigger] list_view(s)[i] == s[i]@,
    decreases s.len(),
{
    if s.len() > 0 {
        lemma_list_view(s.drop_last());
    }
}

/// Text, or null when absent.
pub open spec fn nullable(s: Option<Seq<char>>) -> JsonView {
    match s {
        Some(t) => JsonView::Str(t),
        None => JsonView::Null,
    }
}

/// An integer, or null when absent.
pub open spec fn nullable_int(n: Option<int>) -> JsonView {
    match n {
        Some(i) => JsonView::Int(i),
        None => JsonView::Null,
    }
}

/// A list of texts.
pub open spec fn text_list(s: Seq<Seq<char>>) -> JsonView {
    JsonView::List(Seq::new(s.len(), |i: int| JsonView::Str(s[i])))
}

/// The members of an object with the given key.
pub open spec fn member(j: JsonView, key: Seq<char>) -> Option<JsonView> {
    match j {
        JsonView::Object(fields) => member_from(fields, key),
        _ => None,
    }
}

pub open spec fn member_from(fields: Seq<(Seq<char>, JsonView)>, key: Seq<char>) -> Option<JsonView>
    decreases fields.len(),
{
    if fields.len() == 0 {
        None
    } else if fields[0].0 == key {
        Some(fields[0].1)
    } else {
        member_from(fields.skip(1), key)
    }
}

impl Json {
    pub fn text(s: &str) -> (r: Json)
        ensures
            r@ == JsonView::Str(s@),
    {
        Json::Str(s.to_owned())
    }

    pub fn opt_text(s: &Option<String>) -> (r: Json)
        ensures
            r@ == nullable(text::opt_text(*s)),
    {
        match s {
            Some(t) => Json::Str(t.clone()),
            None => Json::Null,
        }
    }

    pub fn from_i64(n: i64) -> (r: Json)
        ensures
            r@ == JsonView::Int(n as int),
    {
        Json::Int(n as i128)
    }

    pub fn from_u64(n: u64) -> (r: Json)
        ensures
            r@ == JsonView::Int(n as int),
    {
        Json::Int(n as i128)
    }

    pub fn opt_i32(n: Option<i32>) -> (r: Json)
        ensures
            r@ == nullable_int(
                match n {
                    Some(i) => Some(i as int),
                    None => None,
                },
            ),
    {
        match n {
            Some(i) => Json::Int(i as i128),
            None => Json::Null,
        }
    }

    pub fn opt_bool(b: Option<bool>) -> (r: Json)
        ensures
            r@ == match b {
                Some(v) => JsonView::Bool(v),
                None => JsonView::Null,
            },
    {
        match b {
            Some(v) => Json::Bool(v),
            None => Json::Null,
        }
    }

    pub fn strings(v: &Vec<String>) -> (r: Json)
        ensures
            r@ == text_list(text::texts(v@)),
    {
        let mut out: Vec<Json> = Vec::new();
        let mut i: usize = 0;
        while i < v.len()
            invariant
                i <= v@.len(),
                out@.len() == i,
                forall|k: int| 0 <= k < i ==> (#[trigger] out@[k])@ == JsonView::Str(v@[k]@),
            decreases v@.len() - i,
        {
            out.push(Json::text(v[i].as_str()));
            i = i + 1;
        }
        proof {
            lemma_list_view(out@);
            assert(list_view(out@) == Seq::new(
                text::texts(v@).len(),
                |i: int| JsonView::Str(text::texts(v@)[i]),
            ));
        }
        Json::List(out)
    }

    /// An independent copy of the same value.
    pub fn copy(&self) -> (r: Json)
        ensures
            r@ == self@,
        decreases self,
    {
        match self {
            Json::Null => Json::Null,
            Json::Bool(b) => Json::Bool(*b),
            Json::Int(n) => Json::Int(*n),
            Json::Float(s) => Json::Float(s.clone()),
            Json::Str(s) => Json::Str(s.clone()),
            Json::List(v) => {
                let mut out: Vec<Json> = Vec::new();
                let mut i: usize = 0;
                while i < v.len()
                    invariant
                        i <= v@.len(),
                        out@.len() == i,
                        self matches Json::List(w) && w == v,
                        forall|k: int| 0 <= k < i ==> (#[trigger] out@[k])@ == v@[k]@,
                    decreases v@.len() - i,
                {
                    let item = &v[i];
                    assert(decreases_to!(*self => v@[i as int]));
                    out.push(item.copy());
                    i = i + 1;
                }
                proof {
                    lemma_list_view(out@);
                    lemma_list_view(v@);
                    assert(list_view(out@) == list_view(v@));
                }
                Json::List(out)
            },
            Json::Object(v) => {
                let mut out: Vec<(String, Json)> = Vec::new();
                let mut i: usize = 0;
                while i < v.len()
                    invariant
                        i <= v@.len(),
                        out@.len() == i,
                        self matches Json::Object(w) && w == v,
                        forall|k: int|
                            0 <= k < i ==> (#[trigger] out@[k]).0@ == v@[k].0@ && out@[k].1@
                                == v@[k].1@,
                    decreases v@.len() - i,
                {
                    let item = &v[i];
                    assert(decreases_to!(*self => v@[i as int].1));
                    out.push((item.0.clone(), item.1.copy()));
                    i = i + 1;
                }
                proof {
                    lemma_fields_view(out@);
                    lemma_fields_view(v@);
                    assert(fields_view(out@) == fields_view(v@));
                }
                Json::Object(out)
            },
        }
    }

    /// The member of an object with the given key.
    pub fn get(&self, key: &str) -> (r: Option<&Json>)
        ensures
            match r {
                Some(v) => member(self@, key@) == Some(v@),
                None => member(self@, key@) is None,
            },
    {
        match self {
            Json::Object(v) => {
                let wanted = key.to_owned();
                let ghost fields = fields_view(v@);
                let mut i: usize = 0;
                proof {
                    lemma_fields_view(v@);
                    assert(fields.skip(0) == fields);
                }
                while i < v.len()
                    invariant
                        i <= v@.len(),
                        wanted@ == key@,
                        self matches Json::Object(w) && w == v,
                        fields == fields_view(v@),
                        fields.len() == v@.len(),
                        forall|k: int|
                            0 <= k < v@.len() ==> #[trigger] fields[k] == (v@[k].0@, v@[k].1@),
                        member_from(fields.skip(i as int), key@) == member_from(fields, key@),
                    decreases v@.len() - i,
                {
                    assert(fields.skip(i as int)[0] == fields[i as int]);
                    if v[i].0 == wanted {
                        return Some(&v[i].1);
                    }
                    assert(fields.skip(i as int).skip(1) == fields.skip(i + 1));
                    i = i + 1;
                }
                None
            },
            _ => None,
        }
    }
}

impl Clone for Json {
    fn clone(&self) -> (r: Json)
        ensures
            r@ == self@,
    {
        self.copy()
    }
}

/// Members of an object under construction, added in ascending key order.
pub struct Fields {
    pub entries: Vec<(String, Json)>,
}

impl View for Fields {
    type V = Seq<(Seq<char>, JsonView)>;

    open spec fn view(&self) -> Seq<(Seq<char>, JsonView)> {
        fields_view(self.entries@)
    }
}

impl Fields {
    pub fn new() -> (r: Fields)
        ensures
            r@ == Seq::<(Seq<char>, JsonView)>::empty(),
    {
        Fields { entries: Vec::new() }
    }

    pub fn with(self, key: &str, value: Json) -> (r: Fields)
        ensures
            r@ == self@.push((key@, value@)),
    {
        let mut entries = self.entries;
        let ghost before = entries@;
        entries.push((key.to_owned(), value));
        assert(entries@.drop_last() == before);
        Fields { entries }
    }

    pub fn done(self) -> (r: Json)
        ensures
            r@ == JsonView::Object(self@),
    {
        Json::Object(self.entries)
    }
}

} // verus!
