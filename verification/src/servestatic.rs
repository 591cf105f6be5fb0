//! Static-file serving support. The filesystem work lives with the
//! application; this module holds the decision logic: stripping the
//! route's URL prefix from the matched path, rejecting `..` traversal
//! segments, and joining the remainder onto the configured root. A
//! request whose path does not resolve is handed to the same not-found
//! handler as a missed route.
use vstd::prelude::*;
use crate::strutil::{opt_view, spec_split, split_str, str_eq, views_of};

verus! {

/// Whether any `/`-delimited segment of `rest` is the traversal segment
/// `..`.
pub open spec fn has_dotdot(rest: Seq<char>) -> bool {
    spec_split(rest, '/').contains(seq!['.', '.'])
}

/// Where a matched path leads under `root`: the path must extend
/// `prefix`; the remainder must be free of `..` segments; the result is
/// the remainder joined onto `root` with a `/`.
pub open spec fn resolved_path(root: Seq<char>, prefix: Seq<char>, path: Seq<char>) -> Option<
    Seq<char>,
> {
    if prefix.is_prefix_of(path) {
        let rest = path.skip(prefix.len() as int);
        if has_dotdot(rest) {
            None
        } else {
            Some(root + seq!['/'] + rest)
        }
    } else {
        None
    }
}

/// A static-file route's configuration: the filesystem root it serves
/// from and the URL prefix it strips.
pub struct ServeStatic {
    pub root: String,
    pub prefix: String,
}

impl ServeStatic {
    pub fn new(root: &str, prefix: &str) -> (s: ServeStatic)
        ensures
            s.root@ == root@,
            s.prefix@ == prefix@,
    {
        ServeStatic { root: root.to_owned(), prefix: prefix.to_owned() }
    }

    /// Resolves a matched request path to the file path to serve, or
    /// nothing when the path escapes the prefix or holds a `..` segment.
    pub fn resolve(&self, path: &str) -> (r: Option<String>)
        ensures
            opt_view(r) == resolved_path(self.root@, self.prefix@, path@),
    {
        let plen = self.prefix.as_str().unicode_len();
        let n = path.unicode_len();
        if plen > n {
            proof {
                assert(!self.prefix@.is_prefix_of(path@));
            }
            return None;
        }
        let mut i: usize = 0;
        while i < plen
            invariant
                0 <= i <= plen <= n,
                plen == self.prefix@.len(),
                n == path@.len(),
                forall|j: int| 0 <= j < i ==> self.prefix@[j] == path@[j],
            decreases plen - i,
        {
            if self.prefix.as_str().get_char(i) != path.get_char(i) {
                proof {
                    assert(!self.prefix@.is_prefix_of(path@));
                }
                return None;
            }
            i = i + 1;
        }
        proof {
            assert(self.prefix@ =~= path@.subrange(0, plen as int));
            assert(self.prefix@.is_prefix_of(path@));
        }
        let rest = path.substring_char(plen, n);
        proof {
            assert(rest@ =~= path@.skip(plen as int));
        }
        let parts = split_str(rest, '/');
        let pn = parts.len();
        let mut w: usize = 0;
        while w < pn
            invariant
                0 <= w <= pn,
                pn == parts@.len(),
                self.prefix@.is_prefix_of(path@),
                rest@ == path@.skip(self.prefix@.len() as int),
                views_of(parts@) == spec_split(rest@, '/'),
                forall|j: int| 0 <= j < w ==> views_of(parts@)[j] != seq!['.', '.'],
            decreases pn - w,
        {
            proof {
                assert(views_of(parts@)[w as int] == parts@[w as int]@);
                reveal_strlit("..");
                assert(".."@ =~= seq!['.', '.']);
            }
            if str_eq(parts[w].as_str(), "..") {
                proof {
                    assert(spec_split(rest@, '/')[w as int] == seq!['.', '.']);
                    assert(spec_split(rest@, '/').contains(seq!['.', '.']));
                }
                return None;
            }
            w = w + 1;
        }
        proof {
            if has_dotdot(rest@) {
                let w = choose|w: int|
                    0 <= w < spec_split(rest@, '/').len() && spec_split(rest@, '/')[w] == seq![
                        '.',
                        '.',
                    ];
            }
            assert(!has_dotdot(rest@));
        }
        let joined = crate::strutil::concat3(self.root.as_str(), "/", rest);
        proof {
            reveal_strlit("/");
            assert("/"@ =~= seq!['/']);
        }
        Some(joined)
    }
}

} // verus!
