//! Tag values and tag bodies.
//!
//! A tag body is a `replace` flag and an ordered list of values; a value is
//! either a bare identifier or an identifier with a `required` flag. Two
//! values count as the same entry when their identifiers are equal.

use vstd::prelude::*;
use vstd::string::{StrSliceExecFns, StringExecFns};
use crate::json::{
    json_from_str, json_of, value_as_array, value_as_bool, value_as_str, value_get, value_model,
    JsonModel,
};

verus! {

/// Why a file yields no tag record.
#[derive(Debug)]
pub enum Error {
    /// The path does not follow the tag directory convention.
    IllegalDirectoryStructure(String),
    /// The file could not be read.
    IO(String),
    /// The body is not a well-formed tag document.
    Serde(String),
}

/// Mathematical model of a single tag value.
pub ghost enum TagValueModel {
    Plain { id: Seq<char> },
    Complex { id: Seq<char>, required: bool },
}

impl TagValueModel {
    /// The identifier a value is reduced to for deduplication.
    pub open spec fn id(self) -> Seq<char> {
        match self {
            TagValueModel::Plain { id } => id,
            TagValueModel::Complex { id, .. } => id,
        }
    }

    /// A value normalized to its bare identifier.
    pub open spec fn normalized(self) -> TagValueModel {
        TagValueModel::Plain { id: self.id() }
    }
}

/// Mathematical model of a tag body.
pub ghost struct TagModel {
    pub replace: bool,
    pub values: Seq<TagValueModel>,
}

/// One entry of a tag's value list.
#[derive(Debug, Clone, PartialEq, Eq, Hash)]
pub enum MinecraftTagValue {
    Plain(String),
    Complex { id: String, required: bool },
}

impl View for MinecraftTagValue {
    type V = TagValueModel;

    open spec fn view(&self) -> TagValueModel {
        match self {
            MinecraftTagValue::Plain(s) => TagValueModel::Plain { id: s@ },
            MinecraftTagValue::Complex { id, required } => TagValueModel::Complex {
                id: id@,
                required: *required,
            },
        }
    }
}

impl MinecraftTagValue {
    /// Whether this value is a bare identifier.
    pub fn is_plain(&self) -> (r: bool)
        ensures
            r == (self@ matches TagValueModel::Plain { .. }),
    {
        matches!(self, MinecraftTagValue::Plain(_))
    }

    /// Whether this value's identifier refers to another tag rather than a
    /// concrete entry, marked by a leading `#`.
    pub fn is_tag(&self) -> (r: bool)
        ensures
            r == (self@.id().len() > 0 && self@.id()[0] == '#'),
    {
        let id: &String = match self {
            MinecraftTagValue::Plain(s) => s,
            MinecraftTagValue::Complex { id, .. } => id,
        };
        if id.as_str().unicode_len() == 0 {
            false
        } else {
            id.as_str().get_char(0) == '#'
        }
    }

    /// This value reduced to its bare identifier.
    pub fn to_plain(&self) -> (r: Self)
        ensures
            r@ == self@.normalized(),
    {
        let id: &String = match self {
            MinecraftTagValue::Plain(s) => s,
            MinecraftTagValue::Complex { id, .. } => id,
        };
        MinecraftTagValue::Plain(id.clone())
    }
}

/// The body of one tag file: the `replace` flag and the value list.
#[derive(Debug, Clone, PartialEq, Eq)]
pub struct MinecraftTag {
    pub replace: bool,
    pub values: Vec<MinecraftTagValue>,
}

impl View for MinecraftTag {
    type V = TagModel;

    open spec fn view(&self) -> TagModel {
        TagModel { replace: self.replace, values: self.values@.map_values(|v: MinecraftTagValue| v@) }
    }
}

impl MinecraftTag {
    /// Builds a tag body from its parts.
    pub fn new(replace: bool, values: Vec<MinecraftTagValue>) -> (r: Self)
        ensures
            r@ == (TagModel { replace, values: values@.map_values(|v: MinecraftTagValue| v@) }),
    {
        MinecraftTag { replace, values }
    }

    /// The identifiers of all values, in list order.
    pub fn flatten_value(&self) -> (r: Vec<String>)
        ensures
            r@.map_values(|s: String| s@) == self@.values.map_values(|v: TagValueModel| v.id()),
    {
        let mut out: Vec<String> = Vec::new();
        let mut i: usize = 0;
        while i < self.values.len()
            invariant
                i <= self.values.len(),
                out@.map_values(|s: String| s@) == self.values@.take(i as int).map_values(
                    |v: MinecraftTagValue| v@.id(),
                ),
            decreases self.values.len() - i,
        {
            let id: &String = match &self.values[i] {
                MinecraftTagValue::Plain(s) => s,
                MinecraftTagValue::Complex { id, .. } => id,
            };
            let ghost prev = out@;
            out.push(id.clone());
            proof {
                broadcast use vstd::seq::Seq::lemma_push_map_commute;

                assert(self.values@.take(i + 1) =~= self.values@.take(i as int).push(
                    self.values@[i as int],
                ));
                assert(out@.map_values(|s: String| s@) =~= prev.map_values(|s: String| s@).push(
                    self.values@[i as int]@.id(),
                ));
                assert(out@.map_values(|s: String| s@) =~= self.values@.take(i + 1).map_values(
                    |v: MinecraftTagValue| v@.id(),
                ));
            }
            i = i + 1;
        }
        proof {
            assert(self.values@.take(self.values@.len() as int) =~= self.values@);
            assert(self@.values.map_values(|v: TagValueModel| v.id()) =~= self.values@.map_values(
                |v: MinecraftTagValue| v@.id(),
            ));
        }
        out
    }
}

/// What one element of a tag document's `values` list denotes: a bare string
/// is a plain identifier, an object must bind `id` to a string and
/// `required` to a boolean; anything else fails.
pub open spec fn spec_value_of(m: JsonModel) -> Option<TagValueModel> {
    match m {
        JsonModel::Str(s) => Some(TagValueModel::Plain { id: s }),
        JsonModel::Obj(o) => if o.dom().contains("id"@) && o["id"@] is Str && o.dom().contains(
            "required"@,
        ) && o["required"@] is Bool {
            Some(
                TagValueModel::Complex { id: o["id"@]->Str_0, required: o["required"@]->Bool_0 },
            )
        } else {
            None
        },
        _ => None,
    }
}

/// The whole `values` list, or failure if any element fails.
pub open spec fn spec_values_of(ms: Seq<JsonModel>) -> Option<Seq<TagValueModel>> {
    if forall|i: int| 0 <= i < ms.len() ==> spec_value_of(#[trigger] ms[i]) is Some {
        Some(ms.map_values(|m: JsonModel| spec_value_of(m)->Some_0))
    } else {
        None
    }
}

/// What a parsed JSON document denotes as a tag body: an object with a
/// required `values` array and an optional boolean `replace`, false when
/// absent. Other keys are ignored.
pub open spec fn spec_tag_of(m: JsonModel) -> Option<TagModel> {
    match m {
        JsonModel::Obj(o) => if o.dom().contains("values"@) && o["values"@] is Arr && (
        !o.dom().contains("replace"@) || o["replace"@] is Bool) {
            match spec_values_of(o["values"@]->Arr_0) {
                Some(vals) => Some(
                    TagModel {
                        replace: if o.dom().contains("replace"@) {
                            o["replace"@]->Bool_0
                        } else {
                            false
                        },
                        values: vals,
                    },
                ),
                None => None,
            }
        } else {
            None
        },
        _ => None,
    }
}

/// A tag body from a text, if the text is a JSON document denoting one.
pub open spec fn spec_tag_of_text(s: Seq<char>) -> Option<TagModel> {
    match json_of(s) {
        Some(m) => spec_tag_of(m),
        None => None,
    }
}

impl MinecraftTag {
    /// Reads a tag body out of a parsed JSON document.
    pub fn from_json(v: &serde_json::Value) -> (r: Option<MinecraftTag>)
        ensures
            match r {
                Some(tag) => spec_tag_of(value_model(*v)) == Some(tag@),
                None => spec_tag_of(value_model(*v)) is None,
            },
    {
        let arr = match value_get(v, "values") {
            Some(field) => match value_as_array(field) {
                Some(a) => a,
                None => {
                    return None;
                },
            },
            None => {
                return None;
            },
        };
        let ghost ms = value_model(*v)->Obj_0["values"@]->Arr_0;
        let mut vals: Vec<MinecraftTagValue> = Vec::new();
        let mut i: usize = 0;
        while i < arr.len()
            invariant
                i <= arr@.len(),
                value_model(*v) is Obj,
                value_model(*v)->Obj_0.dom().contains("values"@),
                value_model(*v)->Obj_0["values"@] is Arr,
                ms == value_model(*v)->Obj_0["values"@]->Arr_0,
                ms == arr@.map_values(|e: serde_json::Value| value_model(e)),
                forall|j: int| 0 <= j < i ==> spec_value_of(#[trigger] ms[j]) is Some,
                vals@.len() == i,
                forall|j: int|
                    0 <= j < i ==> Some(#[trigger] vals@[j]@) == spec_value_of(ms[j]),
            decreases arr@.len() - i,
        {
            let element = &arr[i];
            proof {
                assert(ms[i as int] == value_model(arr@[i as int]));
            }
            let value = match value_as_str(element) {
                Some(s) => MinecraftTagValue::Plain(s.to_owned()),
                None => {
                    let id = match value_get(element, "id") {
                        Some(f) => match value_as_str(f) {
                            Some(s) => s.to_owned(),
                            None => {
                                return None;
                            },
                        },
                        None => {
                            return None;
                        },
                    };
                    let required = match value_get(element, "required") {
                        Some(f) => match value_as_bool(f) {
                            Some(b) => b,
                            None => {
                                return None;
                            },
                        },
                        None => {
                            return None;
                        },
                    };
                    MinecraftTagValue::Complex { id, required }
                },
            };
            vals.push(value);
            i = i + 1;
        }
        let replace = match value_get(v, "replace") {
            Some(f) => match value_as_bool(f) {
                Some(b) => b,
                None => {
                    return None;
                },
            },
            None => false,
        };
        proof {
            let picked = spec_values_of(ms)->Some_0;
            assert(vals@.map_values(|val: MinecraftTagValue| val@) =~= picked) by {
                assert forall|j: int| 0 <= j < ms.len() implies picked[j] == vals@[j]@ by {
                    assert(picked[j] == spec_value_of(ms[j])->Some_0);
                }
            }
        }
        Some(MinecraftTag { replace, values: vals })
    }

    /// Parses a tag body from the text of one file. The text must be a JSON
    /// object with a `values` array of identifiers, and an optional boolean
    /// `replace`; any other text is rejected.
    pub fn try_new(text: &str) -> (r: Result<MinecraftTag, Error>)
        ensures
            match spec_tag_of_text(text@) {
                Some(t) => r matches Ok(tag) && tag@ == t,
                None => r matches Err(Error::Serde(_)),
            },
    {
        let parsed = match json_from_str(text) {
            Some(p) => p,
            None => {
                return Err(Error::Serde(String::from_str("the text is not a JSON document")));
            },
        };
        match MinecraftTag::from_json(&parsed) {
            Some(tag) => Ok(tag),
            None => Err(Error::Serde(String::from_str("the document is not a tag body"))),
        }
    }
}

} // verus!
