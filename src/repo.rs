use vstd::prelude::*;

use crate::text::chars_of;

verus! {

/// The text of a typed line without leading and trailing white space.
pub uninterp spec fn trimmed(s: Seq<char>) -> Seq<char>;

/// Relies on `str::trim`: the result depends on the characters alone, and
/// the result of an empty string is empty.
#[verifier::external_body]
fn trim_text(s: &str) -> (r: &str)
    ensures
        r@ == trimmed(s@),
        s@.len() == 0 ==> r@.len() == 0,
{
    s.trim()
}

/// What follows the last `/` of `url`, or all of it when it has none.
pub open spec fn last_segment(url: Seq<char>) -> Seq<char>
    decreases url.len(),
{
    if url.len() == 0 {
        url
    } else if url.last() == '/' {
        seq![]
    } else {
        last_segment(url.drop_last()).push(url.last())
    }
}

/// `s` with every `.git` removed, scanning from the left.
pub open spec fn without_git(s: Seq<char>) -> Seq<char>
    decreases s.len(),
{
    if s.len() < 4 {
        s
    } else if s.subrange(0, 4) == ".git"@ {
        without_git(s.subrange(4, s.len() as int))
    } else {
        seq![s[0]] + without_git(s.subrange(1, s.len() as int))
    }
}

/// The name of the directory a repository is cloned into.
pub open spec fn dir_name(url: Seq<char>) -> Seq<char> {
    without_git(last_segment(url))
}

/// The repository named by a typed line.
pub struct RepoTarget {
    pub url: String,
    pub name: String,
}

/// Start of the last segment of `url`: one past its last `/`, or 0.
fn last_segment_start(cs: &Vec<char>) -> (k: usize)
    ensures
        k <= cs@.len(),
        cs@.subrange(k as int, cs@.len() as int) == last_segment(cs@),
{
    let n: usize = cs.len();
    let mut k: usize = n;
    proof {
        assert(cs@.subrange(n as int, n as int) =~= Seq::<char>::empty());
        assert(cs@.subrange(0, n as int) =~= cs@);
        assert(last_segment(cs@) + Seq::<char>::empty() =~= last_segment(cs@));
    }
    while k > 0 && cs[k - 1] != '/'
        invariant
            n == cs@.len(),
            k <= n,
            last_segment(cs@) == last_segment(cs@.subrange(0, k as int)) + cs@.subrange(
                k as int,
                n as int,
            ),
        decreases k,
    {
        proof {
            let pre = cs@.subrange(0, k as int);
            assert(pre.drop_last() =~= cs@.subrange(0, k - 1));
            assert(pre.last() == cs@[k - 1]);
            assert(cs@.subrange(k - 1, n as int) =~= seq![cs@[k - 1]] + cs@.subrange(
                k as int,
                n as int,
            ));
            assert(last_segment(cs@) =~= last_segment(cs@.subrange(0, k - 1)) + cs@.subrange(
                k - 1,
                n as int,
            ));
        }
        k = k - 1;
    }
    proof {
        let pre = cs@.subrange(0, k as int);
        if k > 0 {
            assert(pre.last() == '/');
        }
        assert(last_segment(pre) =~= Seq::<char>::empty());
        assert(last_segment(cs@) =~= cs@.subrange(k as int, n as int));
    }
    k
}

fn git_at(cs: &Vec<char>, k: usize) -> (r: bool)
    requires
        k + 4 <= cs@.len(),
    ensures
        r == (cs@.subrange(k as int, k + 4) == ".git"@),
{
    proof {
        reveal_strlit(".git");
    }
    let n: usize = cs.len();
    assert(k + 3 < n);
    let r = cs[k] == '.' && cs[k + 1] == 'g' && cs[k + 2] == 'i' && cs[k + 3] == 't';
    proof {
        let sub = cs@.subrange(k as int, k + 4);
        if r {
            assert(sub =~= ".git"@);
        } else {
            assert(sub[0] != ".git"@[0] || sub[1] != ".git"@[1] || sub[2] != ".git"@[2] || sub[3]
                != ".git"@[3]);
        }
    }
    r
}

/// The directory name for a repository URL: its last `/`-separated segment
/// with every `.git` removed.
pub fn repo_dir_name(url: &str) -> (r: String)
    ensures
        r@ == dir_name(url@),
{
    let cs = chars_of(url);
    let n: usize = cs.len();
    let k0 = last_segment_start(&cs);
    let ghost seg = cs@.subrange(k0 as int, n as int);
    let mut out = String::new();
    let mut run: usize = k0;
    let mut k: usize = k0;
    proof {
        assert(cs@.subrange(k0 as int, k0 as int) =~= Seq::<char>::empty());
        assert(out@ + cs@.subrange(run as int, k as int) + without_git(cs@.subrange(k as int, n as int))
            =~= without_git(seg));
    }
    while n - k >= 4
        invariant
            cs@ == url@,
            n == cs@.len(),
            k0 <= run <= k <= n,
            seg == cs@.subrange(k0 as int, n as int),
            out@ + cs@.subrange(run as int, k as int) + without_git(cs@.subrange(k as int, n as int))
                == without_git(seg),
        decreases n - k,
    {
        let ghost rest = cs@.subrange(k as int, n as int);
        proof {
            assert(rest.subrange(0, 4) =~= cs@.subrange(k as int, k + 4));
        }
        if git_at(&cs, k) {
            out.append(url.substring_char(run, k));
            proof {
                assert(rest.subrange(4, rest.len() as int) =~= cs@.subrange(k + 4, n as int));
                assert(cs@.subrange(k + 4, k + 4) =~= Seq::<char>::empty());
                assert(out@ + cs@.subrange(k + 4, k + 4) =~= out@);
            }
            k = k + 4;
            run = k;
        } else {
            proof {
                assert(rest.subrange(1, rest.len() as int) =~= cs@.subrange(k + 1, n as int));
                assert(cs@.subrange(run as int, k + 1) =~= cs@.subrange(run as int, k as int) + seq![
                    rest[0],
                ]);
            }
            k = k + 1;
        }
    }
    out.append(url.substring_char(run, n));
    proof {
        assert(cs@.subrange(run as int, n as int) =~= cs@.subrange(run as int, k as int) + cs@.subrange(
            k as int,
            n as int,
        ));
    }
    out
}

/// The repository URL of a typed line (the line trimmed) and the directory
/// name derived from it.
pub fn parse_repo_input(input: &str) -> (r: RepoTarget)
    ensures
        r.url@ == trimmed(input@),
        r.name@ == dir_name(trimmed(input@)),
{
    let url = trim_text(input);
    let name = repo_dir_name(url);
    RepoTarget { url: String::from_str(url), name }
}

} // verus!
