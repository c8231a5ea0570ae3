//! Repository identity: a git remote name/url pair and the GitHub
//! owner/repo identity handed to the compiler, with the parser for the
//! conventional `owner/repo` environment value.

use crate::util::str_eq;
use vstd::prelude::*;

verus! {

/// One git remote: its name and its url.
#[derive(Debug, Clone, PartialEq, Eq)]
pub struct Origin {
    pub name: String,
    pub url: String,
}

/// A GitHub repository identity.
#[derive(Debug, Clone, PartialEq, Eq)]
pub struct Github {
    pub owner: String,
    pub repo: String,
}

/// The `owner/repo` form of a repository identity.
pub open spec fn spec_repository(owner: Seq<char>, repo: Seq<char>) -> Seq<char> {
    owner + "/"@ + repo
}

impl Github {
    /// Render the identity as `owner/repo`.
    pub fn repository(&self) -> (r: String)
        ensures
            r@ == spec_repository(self.owner@, self.repo@),
    {
        let mut s = self.owner.clone();
        s.append("/");
        s.append(self.repo.as_str());
        proof {
            assert(s@ =~= self.owner@ + "/"@ + self.repo@);
        }
        s
    }
}

/// How often `c` occurs in `s`.
pub open spec fn spec_count_char(s: Seq<char>, c: char) -> nat
    decreases s.len(),
{
    if s.len() == 0 {
        0
    } else {
        spec_count_char(s.drop_last(), c) + (if s.last() == c {
            1nat
        } else {
            0nat
        })
    }
}

/// Parse the conventional `owner/repo` value of the repository environment
/// variable: accepted exactly when it holds a single separator, which may
/// leave either side empty.
pub fn parse_github_repository(value: &str) -> (r: Option<Github>)
    ensures
        match r {
            Some(gh) => {
                &&& spec_count_char(value@, '/') == 1
                &&& exists|i: int|
                    0 <= i < value@.len() && value@[i] == '/' && gh.owner@ == value@.take(i)
                        && gh.repo@ == value@.skip(i + 1)
            },
            None => spec_count_char(value@, '/') != 1,
        },
{
    proof {
        reveal_strlit("/");
    }
    let n = value.unicode_len();
    let mut slashes: usize = 0;
    let mut first: usize = 0;
    let mut i: usize = 0;
    while i < n
        invariant
            n == value@.len(),
            i <= n,
            slashes as nat == spec_count_char(value@.take(i as int), '/'),
            slashes <= i,
            slashes > 0 ==> (first < i && value@[first as int] == '/' && spec_count_char(
                value@.take(first as int),
                '/',
            ) == 0),
        decreases n - i,
    {
        proof {
            assert(value@.take(i + 1).drop_last() =~= value@.take(i as int));
        }
        if value.get_char(i) == '/' {
            if slashes == 0 {
                first = i;
            }
            slashes += 1;
        }
        i += 1;
    }
    proof {
        assert(value@.take(n as int) =~= value@);
    }
    if slashes == 1 {
        let owner = value.substring_char(0, first);
        let repo = value.substring_char(first + 1, n);
        proof {
            assert(owner@ =~= value@.take(first as int));
            assert(repo@ =~= value@.skip(first as int + 1));
        }
        Some(Github { owner: String::from_str(owner), repo: String::from_str(repo) })
    } else {
        None
    }
}

} // verus!
