//! Small verified building blocks: path joining, decimal rendering, string
//! assembly, and a content digest computed through outside hash and
//! encoding crates.

use base64::prelude::BASE64_STANDARD;
use base64::Engine;
use sha2::Digest;
use vstd::prelude::*;

verus! {

/// A path is absolute when it starts with a separator.
pub open spec fn spec_is_absolute(p: Seq<char>) -> bool {
    p.len() > 0 && p[0] == '/'
}

/// Joining `child` onto `parent`: an absolute child stands alone; otherwise
/// the two are joined with exactly one separator between them.
pub open spec fn spec_join_path(parent: Seq<char>, child: Seq<char>) -> Seq<char> {
    if spec_is_absolute(child) {
        child
    } else if parent.len() > 0 && parent[parent.len() - 1] == '/' {
        parent + child
    } else {
        parent + "/"@ + child
    }
}

/// Whether `p` names an absolute path.
pub fn is_absolute_path(p: &str) -> (r: bool)
    ensures
        r == spec_is_absolute(p@),
{
    proof {
        reveal_strlit("/");
    }
    let n = p.unicode_len();
    n > 0 && p.get_char(0) == '/'
}

/// Join `child` onto `parent` as paths.
pub fn join_path(parent: &str, child: &str) -> (r: String)
    ensures
        r@ == spec_join_path(parent@, child@),
{
    proof {
        reveal_strlit("/");
        assert("/"@ =~= seq!['/']);
    }
    if is_absolute_path(child) {
        String::from_str(child)
    } else {
        let n = parent.unicode_len();
        let mut s = String::from_str(parent);
        if !(n > 0 && parent.get_char(n - 1) == '/') {
            s.append("/");
        }
        s.append(child);
        proof {
            if parent@.len() > 0 && parent@[parent@.len() - 1] == '/' {
                assert(s@ =~= parent@ + child@);
            } else {
                assert(s@ =~= parent@ + "/"@ + child@);
            }
        }
        s
    }
}

/// The ASCII digit for a value below ten.
pub open spec fn spec_digit_char(d: nat) -> char {
    ((d + 48) as u8) as char
}

/// The decimal rendering of `n`, most significant digit first.
pub open spec fn spec_u64_string(n: nat) -> Seq<char>
    decreases n,
{
    if n < 10 {
        seq![spec_digit_char(n)]
    } else {
        spec_u64_string(n / 10).push(spec_digit_char(n % 10))
    }
}

fn digit_str(d: u64) -> (r: &'static str)
    requires
        d < 10,
    ensures
        r@ == seq![spec_digit_char(d as nat)],
{
    proof {
        reveal_strlit("0");
        reveal_strlit("1");
        reveal_strlit("2");
        reveal_strlit("3");
        reveal_strlit("4");
        reveal_strlit("5");
        reveal_strlit("6");
        reveal_strlit("7");
        reveal_strlit("8");
        reveal_strlit("9");
    }
    let r = match d {
        0 => "0",
        1 => "1",
        2 => "2",
        3 => "3",
        4 => "4",
        5 => "5",
        6 => "6",
        7 => "7",
        8 => "8",
        _ => "9",
    };
    proof {
        assert(r@ =~= seq![spec_digit_char(d as nat)]);
    }
    r
}

/// Render `n` in decimal.
pub fn u64_to_string(n: u64) -> (r: String)
    ensures
        r@ == spec_u64_string(n as nat),
    decreases n,
{
    if n < 10 {
        String::from_str(digit_str(n))
    } else {
        let mut s = u64_to_string(n / 10);
        s.append(digit_str(n % 10));
        proof {
            assert(s@ =~= spec_u64_string((n / 10) as nat).push(spec_digit_char((n % 10) as nat)));
        }
        s
    }
}

/// The text `key=value`, as placed in a process environment list.
pub open spec fn spec_env_pair(key: Seq<char>, value: Seq<char>) -> Seq<char> {
    key + "="@ + value
}

/// Format one `key=value` environment entry.
pub fn env_pair(key: &str, value: &str) -> (r: String)
    ensures
        r@ == spec_env_pair(key@, value@),
{
    let mut s = String::from_str(key);
    s.append("=");
    s.append(value);
    proof {
        assert(s@ =~= key@ + "="@ + value@);
    }
    s
}

/// The elements of `parts` joined by single spaces.
pub open spec fn spec_join_space(parts: Seq<Seq<char>>) -> Seq<char>
    decreases parts.len(),
{
    if parts.len() == 0 {
        Seq::empty()
    } else if parts.len() == 1 {
        parts[0]
    } else {
        spec_join_space(parts.drop_last()) + " "@ + parts.last()
    }
}

/// Join strings with single spaces, as a command line is displayed.
pub fn join_space(parts: &Vec<String>) -> (r: String)
    ensures
        r@ == spec_join_space(parts@.map_values(|s: String| s@)),
{
    let ghost pv = parts@.map_values(|s: String| s@);
    let mut s = String::new();
    let mut i: usize = 0;
    while i < parts.len()
        invariant
            pv == parts@.map_values(|s: String| s@),
            i <= parts@.len(),
            s@ == spec_join_space(pv.take(i as int)),
        decreases parts@.len() - i,
    {
        if i > 0 {
            s.append(" ");
        }
        s.append(parts[i].as_str());
        proof {
            let taken = pv.take(i + 1);
            assert(taken.drop_last() =~= pv.take(i as int));
            assert(taken.last() == pv[i as int]);
            if i == 0 {
                assert(s@ =~= pv[0]);
            } else {
                assert(s@ =~= spec_join_space(pv.take(i as int)) + " "@ + pv[i as int]);
            }
        }
        i += 1;
    }
    proof {
        assert(pv.take(pv.len() as int) =~= pv);
    }
    s
}

/// Compare two strings by their character sequences.
pub fn str_eq(a: &str, b: &str) -> (r: bool)
    ensures
        r == (a@ == b@),
{
    let n = a.unicode_len();
    if n != b.unicode_len() {
        proof {
            if a@ == b@ {
                assert(a@.len() == b@.len());
            }
        }
        return false;
    }
    let mut i: usize = 0;
    while i < n
        invariant
            n == a@.len(),
            n == b@.len(),
            i <= n,
            forall|j: int| 0 <= j < i ==> a@[j] == b@[j],
        decreases n - i,
    {
        if a.get_char(i) != b.get_char(i) {
            proof {
                if a@ == b@ {
                    assert(a@[i as int] == b@[i as int]);
                }
            }
            return false;
        }
        i += 1;
    }
    proof {
        assert(a@ =~= b@);
    }
    true
}

/// The character sequences underlying a sequence of strings.
pub open spec fn view_strings(v: Seq<String>) -> Seq<Seq<char>> {
    v.map_values(|s: String| s@)
}

/// Copy a vector of strings, value for value.
pub fn clone_strings(v: &Vec<String>) -> (r: Vec<String>)
    ensures
        view_strings(r@) == view_strings(v@),
{
    let mut r: Vec<String> = Vec::new();
    let mut i: usize = 0;
    while i < v.len()
        invariant
            i <= v@.len(),
            r@.len() == i,
            forall|j: int| 0 <= j < i ==> (#[trigger] r@[j]@) == v@[j]@,
        decreases v@.len() - i,
    {
        r.push(v[i].clone());
        i += 1;
    }
    proof {
        assert(view_strings(r@) =~= view_strings(v@));
    }
    r
}

/// Whether some element of `v` equals `x` by value.
pub fn contains_string(v: &Vec<String>, x: &str) -> (r: bool)
    ensures
        r == view_strings(v@).contains(x@),
{
    let ghost sv = view_strings(v@);
    let mut i: usize = 0;
    let n = v.len();
    while i < n
        invariant
            sv == view_strings(v@),
            n == v@.len(),
            i <= n,
            forall|j: int| 0 <= j < i ==> sv[j] != x@,
        decreases n - i,
    {
        if str_eq(v[i].as_str(), x) {
            proof {
                assert(sv[i as int] == x@);
            }
            return true;
        }
        i += 1;
    }
    proof {
        if sv.contains(x@) {
            let j = choose|j: int| 0 <= j < sv.len() && sv[j] == x@;
            assert(false);
        }
    }
    false
}

/// What `sha2`'s SHA-256 returns for a byte sequence. The digest is a pure
/// function of the input; its definition is left to the outside crate.
pub uninterp spec fn sha256_of(bytes: Seq<u8>) -> Seq<u8>;

/// What `base64`'s standard alphabet encoder returns for a byte sequence.
/// The encoding is a pure function of the input.
pub uninterp spec fn base64_of(bytes: Seq<u8>) -> Seq<char>;

/// Relies on sha2::Sha256 (via the Digest trait): hashing is deterministic
/// in the input bytes and a SHA-256 digest is exactly 32 bytes.
#[verifier::external_body]
fn sha256(bytes: &[u8]) -> (r: Vec<u8>)
    ensures
        r@ == sha256_of(bytes@),
        r@.len() == 32,
{
    let mut hasher = sha2::Sha256::new();
    hasher.update(bytes);
    hasher.finalize().to_vec()
}

/// Relies on base64::engine::general_purpose::STANDARD.encode: the encoding
/// is deterministic in the input and a padded standard encoding holds four
/// characters for every started group of three bytes.
#[verifier::external_body]
fn base64_encode(bytes: &Vec<u8>) -> (r: String)
    requires
        bytes@.len() < 0x1000000000000000,
    ensures
        r@ == base64_of(bytes@),
        r@.len() == 4 * ((bytes@.len() + 2) / 3),
{
    BASE64_STANDARD.encode(bytes)
}

/// A base64 encoded sha256 digest.
pub fn digest(bytes: &[u8]) -> (r: String)
    ensures
        r@ == base64_of(sha256_of(bytes@)),
        r@.len() == 44,
{
    let hashed = sha256(bytes);
    base64_encode(&hashed)
}

} // verus!
