//! A tag record: the identity derived from a file's path together with the
//! parsed tag body.

use vstd::prelude::*;
use vstd::string::{StrSliceExecFns, StringExecFns};
use crate::tag::{Error, MinecraftTag, TagModel};
use crate::tag::spec_tag_of_text;
use crate::merge::str_models;

verus! {

/// Mathematical model of a tag record.
pub ghost struct TagDataModel {
    pub namespace: Seq<char>,
    pub tag_type: Seq<char>,
    pub tag_name: Seq<char>,
    pub tag_data: TagModel,
}

/// One discovered tag: its identity fields and its body.
#[derive(Debug, Clone, PartialEq, Eq)]
pub struct MinecraftTagData {
    pub namespace: String,
    pub tag_type: String,
    pub tag_name: String,
    pub tag_data: MinecraftTag,
}

impl View for MinecraftTagData {
    type V = TagDataModel;

    open spec fn view(&self) -> TagDataModel {
        TagDataModel {
            namespace: self.namespace@,
            tag_type: self.tag_type@,
            tag_name: self.tag_name@,
            tag_data: self.tag_data@,
        }
    }
}

/// The characters of the tag file suffix.
pub open spec fn json_ext() -> Seq<char> {
    seq!['.', 'j', 's', 'o', 'n']
}

/// The name ends in the tag file suffix.
pub open spec fn has_json_suffix(s: Seq<char>) -> bool {
    s.len() >= 5 && s.subrange(s.len() - 5, s.len() as int) == json_ext()
}

/// The name is a tag file name: the suffix after a non-empty stem.
pub open spec fn is_json_name(s: Seq<char>) -> bool {
    s.len() >= 6 && has_json_suffix(s)
}

/// The tag file suffix removed, where present.
pub open spec fn strip_json_suffix(s: Seq<char>) -> Seq<char> {
    if has_json_suffix(s) {
        s.take(s.len() - 5)
    } else {
        s
    }
}

/// The first index at or after `from` whose component equals `word`.
pub open spec fn first_at(cs: Seq<Seq<char>>, word: Seq<char>, from: int) -> Option<int>
    decreases cs.len() - from,
{
    if from < 0 || from >= cs.len() {
        None
    } else if cs[from] == word {
        Some(from)
    } else {
        first_at(cs, word, from + 1)
    }
}

/// Path components joined by `/`.
pub open spec fn join_sep(cs: Seq<Seq<char>>) -> Seq<char>
    decreases cs.len(),
{
    if cs.len() == 0 {
        Seq::empty()
    } else if cs.len() == 1 {
        cs[0]
    } else {
        join_sep(cs.drop_last()) + seq!['/'] + cs.last()
    }
}

/// The tag directory convention on a path's components: a component `data`
/// immediately followed by the namespace, later a component `tags`
/// immediately followed by the tag type, and a tag file name last. The tag
/// name is every component after the tag type, joined by `/`, with the
/// suffix stripped.
pub open spec fn parse_path(cs: Seq<Seq<char>>) -> Option<(Seq<char>, Seq<char>, Seq<char>)> {
    if cs.len() == 0 || !is_json_name(cs.last()) {
        None
    } else {
        match first_at(cs, "data"@, 0) {
            None => None,
            Some(d) => if d + 1 >= cs.len() {
                None
            } else {
                match first_at(cs, "tags"@, d + 2) {
                    None => None,
                    Some(t) => if t + 1 >= cs.len() {
                        None
                    } else {
                        Some(
                            (
                                cs[d + 1],
                                cs[t + 1],
                                strip_json_suffix(join_sep(cs.subrange(t + 2, cs.len() as int))),
                            ),
                        )
                    },
                }
            },
        }
    }
}

/// Whether the string ends in the tag file suffix.
fn has_json_suffix_exec(s: &String) -> (r: bool)
    ensures
        r == has_json_suffix(s@),
{
    let n = s.as_str().unicode_len();
    if n < 5 {
        return false;
    }
    let r = s.as_str().get_char(n - 5) == '.' && s.as_str().get_char(n - 4) == 'j' && s.as_str()
        .get_char(n - 3) == 's' && s.as_str().get_char(n - 2) == 'o' && s.as_str().get_char(
        n - 1,
    ) == 'n';
    proof {
        if r {
            assert(s@.subrange(s@.len() - 5, s@.len() as int) =~= json_ext());
        } else {
            if s@.subrange(s@.len() - 5, s@.len() as int) == json_ext() {
                assert(s@.subrange(s@.len() - 5, s@.len() as int)[0] == '.');
                assert(s@.subrange(s@.len() - 5, s@.len() as int)[1] == 'j');
                assert(s@.subrange(s@.len() - 5, s@.len() as int)[2] == 's');
                assert(s@.subrange(s@.len() - 5, s@.len() as int)[3] == 'o');
                assert(s@.subrange(s@.len() - 5, s@.len() as int)[4] == 'n');
            }
        }
    }
    r
}

/// The first index at or after `from` whose component equals `word`.
fn find_at(cs: &Vec<String>, word: &String, from: usize) -> (r: Option<usize>)
    ensures
        match r {
            Some(i) => first_at(str_models(cs@), word@, from as int) == Some(i as int) && from <= i
                < cs@.len(),
            None => first_at(str_models(cs@), word@, from as int) is None,
        },
{
    let mut i: usize = from;
    while i < cs.len()
        invariant
            from <= i,
            first_at(str_models(cs@), word@, from as int) == first_at(
                str_models(cs@),
                word@,
                i as int,
            ),
        decreases cs@.len() - i,
    {
        proof {
            assert(str_models(cs@)[i as int] == cs@[i as int]@);
        }
        if cs[i] == *word {
            return Some(i);
        }
        i = i + 1;
    }
    None
}

/// The components from `from` on, joined by `/`.
fn join_components(cs: &Vec<String>, from: usize) -> (r: String)
    requires
        from <= cs@.len(),
    ensures
        r@ == join_sep(str_models(cs@).subrange(from as int, cs@.len() as int)),
{
    let mut out = String::new();
    let mut i: usize = from;
    proof {
        assert(str_models(cs@).subrange(from as int, from as int) =~= Seq::<Seq<char>>::empty());
    }
    while i < cs.len()
        invariant
            from <= i <= cs@.len(),
            out@ == join_sep(str_models(cs@).subrange(from as int, i as int)),
        decreases cs@.len() - i,
    {
        proof {
            assert(str_models(cs@)[i as int] == cs@[i as int]@);
            let sub = str_models(cs@).subrange(from as int, i + 1);
            assert(sub.drop_last() =~= str_models(cs@).subrange(from as int, i as int));
            assert(sub.last() == str_models(cs@)[i as int]);
            reveal_strlit("/");
            assert("/"@ =~= seq!['/']);
        }
        if i > from {
            out.append("/");
        }
        out.append(cs[i].as_str());
        i = i + 1;
    }
    out
}

impl MinecraftTagData {
    /// Builds a tag record from a file's path components and its text.
    /// The path must follow the tag directory convention, which names the
    /// record, and the text must be a tag document, which gives its body;
    /// the error says which of the two failed.
    pub fn try_new(components: &Vec<String>, content: &str) -> (r: Result<MinecraftTagData, Error>)
        ensures
            match parse_path(str_models(components@)) {
                None => r matches Err(Error::IllegalDirectoryStructure(p)) && p@ == join_sep(
                    str_models(components@),
                ),
                Some((ns, ty, name)) => match spec_tag_of_text(content@) {
                    None => r matches Err(Error::Serde(_)),
                    Some(tag) => r matches Ok(d) && d@ == (TagDataModel {
                        namespace: ns,
                        tag_type: ty,
                        tag_name: name,
                        tag_data: tag,
                    }),
                },
            },
    {
        let ghost cm = str_models(components@);
        proof {
            assert(cm.subrange(0, cm.len() as int) =~= cm);
        }
        let n = components.len();
        if n == 0 {
            return Err(Error::IllegalDirectoryStructure(join_components(components, 0)));
        }
        proof {
            assert(cm[n - 1] == components@[n - 1]@);
        }
        let last = &components[n - 1];
        if !(last.as_str().unicode_len() >= 6 && has_json_suffix_exec(last)) {
            return Err(Error::IllegalDirectoryStructure(join_components(components, 0)));
        }
        let data_word = String::from_str("data");
        let d = match find_at(components, &data_word, 0) {
            Some(d) => d,
            None => {
                return Err(Error::IllegalDirectoryStructure(join_components(components, 0)));
            },
        };
        if d + 1 >= n {
            return Err(Error::IllegalDirectoryStructure(join_components(components, 0)));
        }
        let namespace = components[d + 1].clone();
        let tags_word = String::from_str("tags");
        let t = match find_at(components, &tags_word, d + 2) {
            Some(t) => t,
            None => {
                return Err(Error::IllegalDirectoryStructure(join_components(components, 0)));
            },
        };
        if t + 1 >= n {
            return Err(Error::IllegalDirectoryStructure(join_components(components, 0)));
        }
        let tag_type = components[t + 1].clone();
        let joined = join_components(components, t + 2);
        let tag_name = if has_json_suffix_exec(&joined) {
            let m = joined.as_str().unicode_len();
            joined.as_str().substring_char(0, m - 5).to_owned()
        } else {
            joined
        };
        match MinecraftTag::try_new(content) {
            Ok(tag) => Ok(MinecraftTagData { namespace, tag_type, tag_name, tag_data: tag }),
            Err(e) => Err(e),
        }
    }
}

} // verus!
