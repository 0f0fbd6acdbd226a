//! The compute side of the fetch collaborator: reading the rate-limit
//! headers' values and picking the file entry out of a version document.
//! The network transfer itself lives with the caller.

use vstd::prelude::*;
use vstd::string::StrSliceExecFns;
use crate::json::{value_as_array, value_as_bool, value_as_i64, value_as_str, value_get,
    value_is_null, value_model, JsonModel};

verus! {

/// Why a fetch failed.
#[derive(Debug)]
pub enum FetcherError {
    /// The transfer failed.
    Reqwest(String),
    /// A filesystem fault while storing the download.
    IO(String),
    /// The response body is not a JSON document.
    SerdeJson(String),
    /// The service reports no remaining requests.
    RatelimitReached,
    /// The response carries no rate-limit headers.
    NoRatelimit,
    /// The version document does not describe a file.
    ParseFailed,
    /// The response has no content body.
    NoBody,
}

/// What a version lookup yields: the file to download and its identity.
#[derive(Debug, Clone)]
pub struct ModFileInfomation {
    pub filename: String,
    pub id: String,
    pub url: String,
    pub sha256: String,
}

/// Mathematical model of a file description.
pub ghost struct ModFileModel {
    pub filename: Seq<char>,
    pub id: Seq<char>,
    pub url: Seq<char>,
    pub sha256: Seq<char>,
}

impl View for ModFileInfomation {
    type V = ModFileModel;

    open spec fn view(&self) -> ModFileModel {
        ModFileModel {
            filename: self.filename@,
            id: self.id@,
            url: self.url@,
            sha256: self.sha256@,
        }
    }
}

/// The rate-limit state of the remote service.
#[derive(Debug)]
pub struct Ratelimit {
    pub limit: usize,
    pub remaining: usize,
    pub reset: usize,
}

impl Ratelimit {
    /// The limit is reached when no requests remain.
    pub fn is_reached(&self) -> (r: bool)
        ensures
            r == (self.remaining == 0),
    {
        self.remaining == 0
    }
}

/// A decimal digit.
pub open spec fn is_digit(c: char) -> bool {
    '0' as u32 <= c as u32 && c as u32 <= '9' as u32
}

/// The value of a decimal digit.
pub open spec fn digit_val(c: char) -> nat {
    (c as u32 - '0' as u32) as nat
}

/// The number a digit string denotes.
pub open spec fn dec_val(s: Seq<char>) -> nat
    decreases s.len(),
{
    if s.len() == 0 {
        0
    } else {
        dec_val(s.drop_last()) * 10 + digit_val(s.last())
    }
}

/// The digits of a decimal numeral, a leading plus sign allowed.
pub open spec fn numeral_digits(s: Seq<char>) -> Seq<char> {
    if s.len() > 0 && s[0] == '+' {
        s.drop_first()
    } else {
        s
    }
}

/// The string is a decimal numeral whose value fits the machine's word.
pub open spec fn usize_numeral(s: Seq<char>) -> bool {
    &&& numeral_digits(s).len() > 0
    &&& forall|i: int| 0 <= i < numeral_digits(s).len() ==> is_digit(#[trigger] numeral_digits(s)[i])
    &&& dec_val(numeral_digits(s)) <= usize::MAX
}

proof fn lemma_dec_val_step_le(s: Seq<char>, i: int)
    requires
        0 <= i <= s.len(),
    ensures
        dec_val(s.take(i)) <= dec_val(s),
    decreases s.len() - i,
{
    if i < s.len() {
        assert(s.take(i + 1).drop_last() =~= s.take(i));
        assert(s.take(i + 1).last() == s[i]);
        assert(dec_val(s.take(i)) <= dec_val(s.take(i + 1)));
        lemma_dec_val_step_le(s, i + 1);
    } else {
        assert(s.take(i) =~= s);
    }
}

/// Reads a decimal numeral, as the rate-limit headers carry one.
fn parse_usize(s: &String) -> (r: usize)
    requires
        usize_numeral(s@),
    ensures
        r == dec_val(numeral_digits(s@)),
{
    let n = s.as_str().unicode_len();
    let start: usize = if n > 0 && s.as_str().get_char(0) == '+' {
        1
    } else {
        0
    };
    let ghost digits = numeral_digits(s@);
    proof {
        assert(digits.len() == n - start);
        assert(forall|k: int| 0 <= k < digits.len() ==> digits[k] == s@[start + k]);
        assert(digits.take(0) =~= Seq::<char>::empty());
    }
    let mut acc: usize = 0;
    let mut i: usize = start;
    while i < n
        invariant
            start <= i <= n,
            n == s@.len(),
            digits == numeral_digits(s@),
            usize_numeral(s@),
            digits.len() == n - start,
            forall|k: int| 0 <= k < digits.len() ==> digits[k] == s@[start + k],
            acc == dec_val(digits.take(i - start)),
        decreases n - i,
    {
        let c = s.as_str().get_char(i);
        proof {
            let k = i - start;
            assert(digits[k] == s@[i as int]);
            assert(is_digit(digits[k]));
            assert(digits.take(k + 1).drop_last() =~= digits.take(k));
            assert(digits.take(k + 1).last() == digits[k]);
            lemma_dec_val_step_le(digits, k + 1);
            assert(dec_val(digits.take(k + 1)) == acc * 10 + digit_val(c));
            assert(acc * 10 + digit_val(c) <= usize::MAX);
        }
        let d = (c as u32 - '0' as u32) as usize;
        acc = acc * 10 + d;
        i = i + 1;
    }
    proof {
        assert(digits.take(n - start) =~= digits);
    }
    acc
}

/// Reads the rate-limit state out of the three header values, as the remote
/// service sends them: all three must be present, each a decimal numeral.
pub fn modrinth_ratelimit(
    limit: &Option<String>,
    remaining: &Option<String>,
    reset: &Option<String>,
) -> (r: Result<Ratelimit, FetcherError>)
    requires
        *limit matches Some(s) ==> usize_numeral(s@),
        *remaining matches Some(s) ==> usize_numeral(s@),
        *reset matches Some(s) ==> usize_numeral(s@),
    ensures
        match (limit, remaining, reset) {
            (Some(l), Some(m), Some(t)) => r matches Ok(rl) && rl.limit == dec_val(
                numeral_digits(l@),
            ) && rl.remaining == dec_val(numeral_digits(m@)) && rl.reset == dec_val(
                numeral_digits(t@),
            ),
            _ => r matches Err(FetcherError::NoRatelimit),
        },
{
    let l = match limit {
        Some(s) => parse_usize(s),
        None => {
            return Err(FetcherError::NoRatelimit);
        },
    };
    let m = match remaining {
        Some(s) => parse_usize(s),
        None => {
            return Err(FetcherError::NoRatelimit);
        },
    };
    let t = match reset {
        Some(s) => parse_usize(s),
        None => {
            return Err(FetcherError::NoRatelimit);
        },
    };
    Ok(Ratelimit { limit: l, remaining: m, reset: t })
}

/// What a version document must hold: a `files` array whose first entry
/// binds `url` and `filename` to strings, `primary` to a boolean, `size` to
/// an integer, `file_type` to nothing, null or a string, and `hashes` to an
/// object with string `sha512` and `sha1`. The file keeps the 512-bit hash.
pub open spec fn spec_mod_file_of(id: Seq<char>, m: JsonModel) -> Option<ModFileModel> {
    match m {
        JsonModel::Obj(o) => if o.dom().contains("files"@) && o["files"@] is Arr && o[
            "files"@
        ]->Arr_0.len() > 0 {
            match o["files"@]->Arr_0[0] {
                JsonModel::Obj(f) => if f.dom().contains("url"@) && f["url"@] is Str
                    && f.dom().contains("filename"@) && f["filename"@] is Str && f.dom().contains(
                    "primary"@,
                ) && f["primary"@] is Bool && f.dom().contains("size"@) && (f["size"@] matches
                    JsonModel::Num(Some(_))) && (!f.dom().contains("file_type"@) || f[
                    "file_type"@
                ] is Null || f["file_type"@] is Str) && f.dom().contains("hashes"@) && f[
                    "hashes"@
                ] is Obj && f["hashes"@]->Obj_0.dom().contains("sha512"@) && f[
                    "hashes"@
                ]->Obj_0["sha512"@] is Str && f["hashes"@]->Obj_0.dom().contains("sha1"@) && f[
                    "hashes"@
                ]->Obj_0["sha1"@] is Str {
                    Some(
                        ModFileModel {
                            filename: f["filename"@]->Str_0,
                            id,
                            url: f["url"@]->Str_0,
                            sha256: f["hashes"@]->Obj_0["sha512"@]->Str_0,
                        },
                    )
                } else {
                    None
                },
                _ => None,
            }
        } else {
            None
        },
        _ => None,
    }
}

/// Picks the file description out of a parsed version document.
pub fn extract_mod_file(version_id: String, v: &serde_json::Value) -> (r: Option<
    ModFileInfomation,
>)
    ensures
        match r {
            Some(mf) => spec_mod_file_of(version_id@, value_model(*v)) == Some(mf@),
            None => spec_mod_file_of(version_id@, value_model(*v)) is None,
        },
{
    let files = match value_get(v, "files") {
        Some(x) => x,
        None => {
            return None;
        },
    };
    let arr = match value_as_array(files) {
        Some(a) => a,
        None => {
            return None;
        },
    };
    if arr.len() == 0 {
        return None;
    }
    let first = &arr[0];
    proof {
        let ms = value_model(*v)->Obj_0["files"@]->Arr_0;
        assert(ms[0] == value_model(arr@[0]));
    }
    let url = match value_get(first, "url") {
        Some(x) => match value_as_str(x) {
            Some(s) => s.to_owned(),
            None => {
                return None;
            },
        },
        None => {
            return None;
        },
    };
    let filename = match value_get(first, "filename") {
        Some(x) => match value_as_str(x) {
            Some(s) => s.to_owned(),
            None => {
                return None;
            },
        },
        None => {
            return None;
        },
    };
    match value_get(first, "primary") {
        Some(x) => match value_as_bool(x) {
            Some(_) => {},
            None => {
                return None;
            },
        },
        None => {
            return None;
        },
    }
    match value_get(first, "size") {
        Some(x) => match value_as_i64(x) {
            Some(_) => {},
            None => {
                return None;
            },
        },
        None => {
            return None;
        },
    }
    match value_get(first, "file_type") {
        Some(x) => if value_is_null(x) {
        } else {
            match value_as_str(x) {
                Some(_) => {},
                None => {
                    return None;
                },
            }
        },
        None => {},
    }
    let hashes = match value_get(first, "hashes") {
        Some(x) => x,
        None => {
            return None;
        },
    };
    let sha512 = match value_get(hashes, "sha512") {
        Some(x) => match value_as_str(x) {
            Some(s) => s.to_owned(),
            None => {
                return None;
            },
        },
        None => {
            return None;
        },
    };
    match value_get(hashes, "sha1") {
        Some(x) => match value_as_str(x) {
            Some(_) => {},
            None => {
                return None;
            },
        },
        None => {
            return None;
        },
    }
    Some(ModFileInfomation { filename, id: version_id, url, sha256: sha512 })
}

} // verus!
