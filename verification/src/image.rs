//! Image references and the per-run resolution cache.
//!
//! A job declares its base image as free text; the runner normalizes it to
//! a canonical reference, pulls and inspects it once per distinct canonical
//! reference, and shares the inspection result among jobs that declare the
//! same reference.

use crate::job::InspectInfo;
use crate::util::str_eq;
use vstd::prelude::*;

verus! {

/// A normalized image reference: a fully qualified repository name plus an
/// optional tag and an optional digest.
#[derive(Debug, Clone, PartialEq, Eq)]
pub struct Reference {
    pub name: String,
    pub tag: Option<String>,
    pub digest: Option<String>,
}

/// Ghost mirror of [`Reference`].
pub ghost struct ReferenceV {
    pub name: Seq<char>,
    pub tag: Option<Seq<char>>,
    pub digest: Option<Seq<char>>,
}

impl View for Reference {
    type V = ReferenceV;

    open spec fn view(&self) -> ReferenceV {
        ReferenceV {
            name: self.name@,
            tag: match self.tag {
                Some(ref t) => Some(t@),
                None => None,
            },
            digest: match self.digest {
                Some(ref d) => Some(d@),
                None => None,
            },
        }
    }
}

/// The canonical string of a reference: `name`, then `:tag` if a tag is
/// present, then `@digest` if a digest is present.
pub open spec fn spec_canonical(r: ReferenceV) -> Seq<char> {
    let base = r.name;
    let with_tag = match r.tag {
        Some(t) => base + ":"@ + t,
        None => base,
    };
    match r.digest {
        Some(d) => with_tag + "@"@ + d,
        None => with_tag,
    }
}

impl Reference {
    /// Render the canonical reference string.
    pub fn canonical(&self) -> (r: String)
        ensures
            r@ == spec_canonical(self@),
    {
        let mut s = self.name.clone();
        match &self.tag {
            Some(t) => {
                s.append(":");
                s.append(t.as_str());
            },
            None => {},
        }
        match &self.digest {
            Some(d) => {
                s.append("@");
                s.append(d.as_str());
            },
            None => {},
        }
        proof {
            assert(s@ =~= spec_canonical(self@));
        }
        s
    }
}

/// The ghost contents of the resolution cache: the association list of
/// canonical reference strings to inspection results.
pub open spec fn cache_entries(entries: Seq<(String, InspectInfo)>) -> Seq<(Seq<char>, InspectInfo)> {
    entries.map_values(|e: (String, InspectInfo)| (e.0@, e.1))
}

/// Whether some entry carries the key `k`.
pub open spec fn cache_has_key(m: Seq<(Seq<char>, InspectInfo)>, k: Seq<char>) -> bool {
    exists|i: int| 0 <= i < m.len() && (#[trigger] m[i]).0 == k
}

/// Memoizes one pull-and-inspect per canonical reference. Entries are
/// inserted at most once and never changed afterward.
#[derive(Debug)]
pub struct ImageInfoCache {
    entries: Vec<(String, InspectInfo)>,
}

impl View for ImageInfoCache {
    type V = Seq<(Seq<char>, InspectInfo)>;

    closed spec fn view(&self) -> Seq<(Seq<char>, InspectInfo)> {
        cache_entries(self.entries@)
    }
}

impl ImageInfoCache {
    /// An empty cache, made once per run.
    pub fn new() -> (r: Self)
        ensures
            r@.len() == 0,
    {
        ImageInfoCache { entries: Vec::new() }
    }

    /// Look a canonical reference up.
    pub fn get(&self, key: &str) -> (r: Option<&InspectInfo>)
        ensures
            match r {
                Some(info) => exists|i: int|
                    0 <= i < self@.len() && (#[trigger] self@[i]) == (key@, *info),
                None => !cache_has_key(self@, key@),
            },
    {
        let mut i: usize = 0;
        let n = self.entries.len();
        while i < n
            invariant
                n == self.entries@.len(),
                self@ == cache_entries(self.entries@),
                i <= n,
                forall|j: int| 0 <= j < i ==> (#[trigger] self@[j]).0 != key@,
        decreases n - i,
        {
            if str_eq(self.entries[i].0.as_str(), key) {
                proof {
                    assert(self@[i as int] == (key@, self.entries@[i as int].1));
                }
                return Some(&self.entries[i].1);
            }
            i += 1;
        }
        None
    }

    /// Record the inspection result for a reference not seen before.
    pub fn insert(&mut self, key: String, info: InspectInfo)
        requires
            !cache_has_key(old(self)@, key@),
        ensures
            final(self)@ == old(self)@.push((key@, info)),
    {
        let ghost kv = key@;
        let ghost iv = info;
        self.entries.push((key, info));
        proof {
            assert(self@ =~= old(self)@.push((kv, iv)));
        }
    }
}


/// Why an image reference was rejected.
#[derive(Debug, Clone, Copy, PartialEq, Eq, Structural)]
pub enum ImageReferenceError {
    Empty,
    InvalidName,
    InvalidTag,
    InvalidDigest,
}

/// The index of the first occurrence of `c` in `s`, or -1.
pub open spec fn spec_index_of_first(s: Seq<char>, c: char) -> int
    decreases s.len(),
{
    if s.len() == 0 {
        -1
    } else if s[0] == c {
        0
    } else if spec_index_of_first(s.skip(1), c) == -1 {
        -1
    } else {
        1 + spec_index_of_first(s.skip(1), c)
    }
}

/// The index of the last occurrence of `c` in `s`, or -1.
pub open spec fn spec_index_of_last(s: Seq<char>, c: char) -> int
    decreases s.len(),
{
    if s.len() == 0 {
        -1
    } else if s.last() == c {
        s.len() - 1
    } else {
        spec_index_of_last(s.drop_last(), c)
    }
}

proof fn lemma_index_of_first_none(s: Seq<char>, c: char)
    requires
        forall|j: int| 0 <= j < s.len() ==> s[j] != c,
    ensures
        spec_index_of_first(s, c) == -1,
    decreases s.len(),
{
    if s.len() > 0 {
        lemma_index_of_first_none(s.skip(1), c);
    }
}

proof fn lemma_index_of_first_at(s: Seq<char>, c: char, p: int)
    requires
        0 <= p < s.len(),
        s[p] == c,
        forall|j: int| 0 <= j < p ==> s[j] != c,
    ensures
        spec_index_of_first(s, c) == p,
    decreases s.len(),
{
    if p > 0 {
        lemma_index_of_first_at(s.skip(1), c, p - 1);
    }
}

proof fn lemma_index_of_last_none(s: Seq<char>, c: char)
    requires
        forall|j: int| 0 <= j < s.len() ==> s[j] != c,
    ensures
        spec_index_of_last(s, c) == -1,
    decreases s.len(),
{
    if s.len() > 0 {
        lemma_index_of_last_none(s.drop_last(), c);
    }
}

proof fn lemma_index_of_last_at(s: Seq<char>, c: char, p: int)
    requires
        0 <= p < s.len(),
        s[p] == c,
        forall|j: int| p < j < s.len() ==> s[j] != c,
    ensures
        spec_index_of_last(s, c) == p,
    decreases s.len(),
{
    if p < s.len() - 1 {
        lemma_index_of_last_at(s.drop_last(), c, p);
    }
}

/// The index of the first occurrence of `c`, if any.
fn find_first(s: &str, c: char) -> (r: Option<usize>)
    ensures
        match r {
            Some(i) => (i as int) < s@.len() && s@[i as int] == c && i as int
                == spec_index_of_first(s@, c),
            None => spec_index_of_first(s@, c) == -1,
        },
{
    let n = s.unicode_len();
    let mut i: usize = 0;
    while i < n
        invariant
            n == s@.len(),
            i <= n,
            forall|j: int| 0 <= j < i ==> s@[j] != c,
        decreases n - i,
    {
        if s.get_char(i) == c {
            proof {
                lemma_index_of_first_at(s@, c, i as int);
            }
            return Some(i);
        }
        i += 1;
    }
    proof {
        lemma_index_of_first_none(s@, c);
    }
    None
}

/// The index of the last occurrence of `c`, if any.
fn find_last(s: &str, c: char) -> (r: Option<usize>)
    ensures
        match r {
            Some(i) => (i as int) < s@.len() && s@[i as int] == c && i as int
                == spec_index_of_last(s@, c),
            None => spec_index_of_last(s@, c) == -1,
        },
{
    let n = s.unicode_len();
    let mut i: usize = n;
    while i > 0
        invariant
            n == s@.len(),
            i <= n,
            forall|j: int| i <= j < n ==> s@[j] != c,
        decreases i,
    {
        i -= 1;
        if s.get_char(i) == c {
            proof {
                lemma_index_of_last_at(s@, c, i as int);
            }
            return Some(i);
        }
    }
    proof {
        lemma_index_of_last_none(s@, c);
    }
    None
}

/// A character allowed in a (lower-case) repository name: letters, digits,
/// separators, path and port punctuation.
pub open spec fn spec_is_name_char(c: char) -> bool {
    ||| ('a' as u32) <= (c as u32) && (c as u32) <= ('z' as u32)
    ||| ('0' as u32) <= (c as u32) && (c as u32) <= ('9' as u32)
    ||| c == '.'
    ||| c == '_'
    ||| c == '-'
    ||| c == '/'
    ||| c == ':'
}

/// Every character of `s` may appear in a repository name.
pub open spec fn spec_all_name_chars(s: Seq<char>) -> bool {
    forall|j: int| 0 <= j < s.len() ==> spec_is_name_char(#[trigger] s[j])
}

/// A character allowed in a tag: letters of both cases, digits and
/// separators.
pub open spec fn spec_is_tag_char(c: char) -> bool {
    ||| ('a' as u32) <= (c as u32) && (c as u32) <= ('z' as u32)
    ||| ('A' as u32) <= (c as u32) && (c as u32) <= ('Z' as u32)
    ||| ('0' as u32) <= (c as u32) && (c as u32) <= ('9' as u32)
    ||| c == '.'
    ||| c == '_'
    ||| c == '-'
}

/// Every character of `s` may appear in a tag.
pub open spec fn spec_all_tag_chars(s: Seq<char>) -> bool {
    forall|j: int| 0 <= j < s.len() ==> spec_is_tag_char(#[trigger] s[j])
}

fn check_name_chars(s: &str) -> (r: bool)
    ensures
        r == spec_all_name_chars(s@),
{
    let n = s.unicode_len();
    let mut i: usize = 0;
    while i < n
        invariant
            n == s@.len(),
            i <= n,
            forall|j: int| 0 <= j < i ==> spec_is_name_char(#[trigger] s@[j]),
        decreases n - i,
    {
        let c = s.get_char(i);
        let ok = (('a' as u32) <= (c as u32) && (c as u32) <= ('z' as u32)) || (('0' as u32) <= (
        c as u32) && (c as u32) <= ('9' as u32)) || c == '.' || c == '_' || c == '-' || c == '/'
            || c == ':';
        if !ok {
            proof {
                assert(!spec_is_name_char(s@[i as int]));
            }
            return false;
        }
        i += 1;
    }
    true
}

fn check_tag_chars(s: &str) -> (r: bool)
    ensures
        r == spec_all_tag_chars(s@),
{
    let n = s.unicode_len();
    let mut i: usize = 0;
    while i < n
        invariant
            n == s@.len(),
            i <= n,
            forall|j: int| 0 <= j < i ==> spec_is_tag_char(#[trigger] s@[j]),
        decreases n - i,
    {
        let c = s.get_char(i);
        let ok = (('a' as u32) <= (c as u32) && (c as u32) <= ('z' as u32)) || (('A' as u32) <= (
        c as u32) && (c as u32) <= ('Z' as u32)) || (('0' as u32) <= (c as u32) && (c as u32)
            <= ('9' as u32)) || c == '.' || c == '_' || c == '-';
        if !ok {
            proof {
                assert(!spec_is_tag_char(s@[i as int]));
            }
            return false;
        }
        i += 1;
    }
    true
}

/// Whether `c` occurs in `s`.
pub open spec fn spec_has_char(s: Seq<char>, c: char) -> bool {
    spec_index_of_first(s, c) != -1
}

/// The part of a name before its first slash, or the whole name.
pub open spec fn spec_first_component(s: Seq<char>) -> Seq<char> {
    if spec_index_of_first(s, '/') == -1 {
        s
    } else {
        s.take(spec_index_of_first(s, '/'))
    }
}

/// Whether a leading component names a registry host: it holds a dot or a
/// port separator, or is the conventional local host name.
pub open spec fn spec_is_registry(comp: Seq<char>) -> bool {
    spec_has_char(comp, '.') || spec_has_char(comp, ':') || comp == "localhost"@
}

/// The fully qualified form of a raw repository name: a name that starts
/// with a registry host stands; any other name lives on the default
/// registry, and a bare name in its library namespace.
pub open spec fn spec_normalize_name(raw: Seq<char>) -> Seq<char> {
    if spec_has_char(raw, '/') && spec_is_registry(spec_first_component(raw)) {
        raw
    } else if spec_has_char(raw, '/') {
        "docker.io/"@ + raw
    } else {
        "docker.io/library/"@ + raw
    }
}

/// The parse of an image reference: an optional digest after the first
/// `@`, an optional tag after the last `:` that follows the last `/`, and
/// the normalized repository name. Rejected exactly when empty, when the
/// digest or tag is empty, when the tag holds a foreign character, or when
/// the name is empty or holds a foreign character.
pub open spec fn spec_parse_reference(s: Seq<char>) -> Result<ReferenceV, ImageReferenceError> {
    if s.len() == 0 {
        Err(ImageReferenceError::Empty)
    } else {
        let ia = spec_index_of_first(s, '@');
        let rest = if ia == -1 {
            s
        } else {
            s.take(ia)
        };
        let digest = if ia == -1 {
            None
        } else {
            Some(s.skip(ia + 1))
        };
        if ia != -1 && s.skip(ia + 1).len() == 0 {
            Err(ImageReferenceError::InvalidDigest)
        } else {
            let jc = spec_index_of_last(rest, ':');
            let js = spec_index_of_last(rest, '/');
            let has_tag = jc != -1 && jc > js;
            let raw = if has_tag {
                rest.take(jc)
            } else {
                rest
            };
            if has_tag && (rest.skip(jc + 1).len() == 0 || !spec_all_tag_chars(rest.skip(jc + 1))) {
                Err(ImageReferenceError::InvalidTag)
            } else if raw.len() == 0 || !spec_all_name_chars(raw) {
                Err(ImageReferenceError::InvalidName)
            } else {
                Ok(
                    ReferenceV {
                        name: spec_normalize_name(raw),
                        tag: if has_tag {
                            Some(rest.skip(jc + 1))
                        } else {
                            None
                        },
                        digest: digest,
                    },
                )
            }
        }
    }
}

/// Parse and normalize a declared image reference.
#[verifier::rlimit(100)]
pub fn parse_image_reference(s: &str) -> (r: Result<Reference, ImageReferenceError>)
    ensures
        match r {
            Ok(rf) => spec_parse_reference(s@) == Ok::<ReferenceV, ImageReferenceError>(rf@),
            Err(e) => spec_parse_reference(s@) == Err::<ReferenceV, ImageReferenceError>(e),
        },
{
    let n = s.unicode_len();
    if n == 0 {
        return Err(ImageReferenceError::Empty);
    }
    let (rest, digest): (&str, Option<&str>) = match find_first(s, '@') {
        Some(ia) => {
            let d = s.substring_char(ia + 1, n);
            proof {
                assert(d@ =~= s@.skip(ia + 1));
            }
            if d.unicode_len() == 0 {
                return Err(ImageReferenceError::InvalidDigest);
            }
            let rest = s.substring_char(0, ia);
            proof {
                assert(rest@ =~= s@.take(ia as int));
            }
            (rest, Some(d))
        },
        None => (s, None),
    };
    let rn = rest.unicode_len();
    let jc = find_last(rest, ':');
    let js = find_last(rest, '/');
    let has_tag = match (jc, js) {
        (Some(c), Some(sl)) => c > sl,
        (Some(_), None) => true,
        _ => false,
    };
    let mut tag: Option<String> = None;
    let raw: &str = if has_tag {
        let c = match jc {
            Some(c) => c,
            None => 0,
        };
        let t = rest.substring_char(c + 1, rn);
        proof {
            assert(t@ =~= rest@.skip(c + 1));
        }
        if t.unicode_len() == 0 || !check_tag_chars(t) {
            return Err(ImageReferenceError::InvalidTag);
        }
        tag = Some(String::from_str(t));
        let raw = rest.substring_char(0, c);
        proof {
            assert(raw@ =~= rest@.take(c as int));
        }
        raw
    } else {
        rest
    };
    if raw.unicode_len() == 0 || !check_name_chars(raw) {
        return Err(ImageReferenceError::InvalidName);
    }
    // Normalize the repository name.
    let name: String = match find_first(raw, '/') {
        Some(slash) => {
            let comp = raw.substring_char(0, slash);
            proof {
                assert(comp@ =~= raw@.take(slash as int));
                assert(comp@ == spec_first_component(raw@));
            }
            let is_registry = find_first(comp, '.').is_some() || find_first(comp, ':').is_some()
                || crate::util::str_eq(comp, "localhost");
            if is_registry {
                String::from_str(raw)
            } else {
                let mut nm = String::from_str("docker.io/");
                nm.append(raw);
                nm
            }
        },
        None => {
            let mut nm = String::from_str("docker.io/library/");
            nm.append(raw);
            nm
        },
    };
    let digest_string: Option<String> = match digest {
        Some(d) => Some(String::from_str(d)),
        None => None,
    };
    let r = Reference { name, tag, digest: digest_string };
    proof {
        assert(r@.name == spec_normalize_name(raw@));
        assert(spec_parse_reference(s@) == Ok::<ReferenceV, ImageReferenceError>(r@));
    }
    Ok(r)
}

/// Resolve a job's declared image: parse and normalize it, and default the
/// tag to `latest` when neither a tag nor a digest is present.
pub fn resolve_image_reference(s: &str) -> (r: Result<Reference, ImageReferenceError>)
    ensures
        match r {
            Ok(rf) => {
                &&& spec_parse_reference(s@) is Ok
                &&& ({
                    let p = spec_parse_reference(s@)->Ok_0;
                    &&& rf@.name == p.name
                    &&& rf@.digest == p.digest
                    &&& rf@.tag == (if p.tag is None && p.digest is None {
                        Some("latest"@)
                    } else {
                        p.tag
                    })
                })
            },
            Err(e) => spec_parse_reference(s@) == Err::<ReferenceV, ImageReferenceError>(e),
        },
{
    match parse_image_reference(s) {
        Ok(mut rf) => {
            let no_tag = rf.tag.is_none();
            let no_digest = rf.digest.is_none();
            if no_tag && no_digest {
                rf.tag = Some(String::from_str("latest"));
            }
            Ok(rf)
        },
        Err(e) => Err(e),
    }
}

} // verus!
