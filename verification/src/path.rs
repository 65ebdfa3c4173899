//! The path resolver.
//!
//! A configuration reference names a document and, after a `#`, an optional
//! sub-path inside it. A sub-path addresses a sub-tree of the parsed
//! document under one of two schemes: dot-separated key segments
//! (`a.b.c`), or pointer-style segments led by slashes (`/a/b/c`). Either
//! way every segment is a key lookup in a table node; a missing key or a
//! non-table node makes the whole lookup come up empty, which callers
//! treat as "no matching sub-document", not as an error.
//!
//! Known limitations, shared with the dotted-key convention this follows:
//! array elements cannot be addressed, and pointer escape sequences are
//! not interpreted.
use vstd::prelude::*;

use crate::doc::{node_get, DocValue, Node};

verus! {

/// How a sub-path is read: dotted key segments or pointer segments.
#[derive(Clone, Copy, PartialEq, Eq, Structural)]
pub enum PathScheme {
    Dotted,
    Pointer,
}

/// Splits a character sequence on every occurrence of `sep`. The result
/// always has one segment more than there are separators; splitting an
/// empty sequence gives one empty segment.
pub open spec fn split_spec(s: Seq<char>, sep: char) -> Seq<Seq<char>>
    decreases s.len(),
    via split_spec_decreases
{
    match s.index_of_first(sep) {
        None => seq![s],
        Some(i) => seq![s.take(i)] + split_spec(s.skip(i + 1), sep),
    }
}

#[via_fn]
proof fn split_spec_decreases(s: Seq<char>, sep: char) {
    s.index_of_first_ensures(sep);
}

/// Unfolds `split_spec` at a separator that is the first one.
proof fn lemma_split_at_first(s: Seq<char>, sep: char, k: int)
    requires
        0 <= k < s.len(),
        s[k] == sep,
        forall|j: int| 0 <= j < k ==> s[j] != sep,
    ensures
        split_spec(s, sep) == seq![s.take(k)] + split_spec(s.skip(k + 1), sep),
{
    s.index_of_first_ensures(sep);
    let i = s.index_of_first(sep)->Some_0;
    assert(s.contains(sep));
    if i < k {
        assert(s[i] != sep);
    }
    assert(i == k);
}

/// A sequence without the separator splits into itself alone.
proof fn lemma_split_none(s: Seq<char>, sep: char)
    requires
        forall|j: int| 0 <= j < s.len() ==> s[j] != sep,
    ensures
        split_spec(s, sep) == seq![s],
{
    s.index_of_first_ensures(sep);
    if s.index_of_first(sep) is Some {
        let i = s.index_of_first(sep)->Some_0;
        assert(s[i] != sep);
    }
}

/// Splits a string on every occurrence of `sep`.
pub fn split_on(s: &str, sep: char) -> (r: Vec<String>)
    ensures
        r@.len() == split_spec(s@, sep).len(),
        forall|i: int| 0 <= i < r@.len() ==> r@[i]@ == split_spec(s@, sep)[i],
{
    let len = s.unicode_len();
    let mut out: Vec<String> = Vec::new();
    let mut start: usize = 0;
    let mut i: usize = 0;
    proof {
        assert(s@.skip(0) =~= s@);
        assert(Seq::<String>::empty().map_values(|t: String| t@) =~= Seq::<Seq<char>>::empty());
        assert(Seq::<Seq<char>>::empty() + split_spec(s@, sep) =~= split_spec(s@, sep));
    }
    while i < len
        invariant
            len == s@.len(),
            start <= i <= len,
            forall|j: int| start <= j < i ==> s@[j] != sep,
            split_spec(s@, sep) == out@.map_values(|t: String| t@) + split_spec(
                s@.skip(start as int),
                sep,
            ),
        decreases len - i,
    {
        if s.get_char(i) == sep {
            let seg = s.substring_char(start, i).to_owned();
            proof {
                let rest = s@.skip(start as int);
                lemma_split_at_first(rest, sep, i - start);
                assert(rest.take(i - start) =~= s@.subrange(start as int, i as int));
                assert(rest.skip(i - start + 1) =~= s@.skip(i + 1));
                assert(out@.push(seg).map_values(|t: String| t@) =~= out@.map_values(
                    |t: String| t@,
                ).push(seg@));
            }
            out.push(seg);
            start = i + 1;
        }
        i = i + 1;
    }
    let last = s.substring_char(start, len).to_owned();
    proof {
        let rest = s@.skip(start as int);
        lemma_split_none(rest, sep);
        assert(rest =~= s@.subrange(start as int, len as int));
        assert(out@.push(last).map_values(|t: String| t@) =~= out@.map_values(
            |t: String| t@,
        ).push(last@));
    }
    out.push(last);
    out
}

/// Walks key segments down a tree, one table lookup per segment.
pub open spec fn walk(n: Node, segs: Seq<Seq<char>>) -> Option<Node>
    decreases segs.len(),
{
    if segs.len() == 0 {
        Some(n)
    } else {
        match node_get(n, segs[0]) {
            None => None,
            Some(c) => walk(c, segs.drop_first()),
        }
    }
}

/// Whether every segment is non-empty; an empty segment addresses nothing.
pub open spec fn segments_valid(segs: Seq<Seq<char>>) -> bool {
    forall|i: int| 0 <= i < segs.len() ==> segs[i].len() > 0
}

/// Where a sub-path leads in a tree: the segments named by the scheme,
/// walked as key lookups. Under the pointer scheme an empty sub-path
/// names the root; otherwise a sub-path with an empty segment, or a
/// pointer path without its leading slash, leads nowhere.
pub open spec fn locate_spec(n: Node, path: Seq<char>, scheme: PathScheme) -> Option<Node> {
    match scheme {
        PathScheme::Dotted => {
            let segs = split_spec(path, '.');
            if segments_valid(segs) {
                walk(n, segs)
            } else {
                None
            }
        },
        PathScheme::Pointer => {
            if path.len() == 0 {
                Some(n)
            } else if path[0] != '/' {
                None
            } else {
                let segs = split_spec(path.skip(1), '/');
                if segments_valid(segs) {
                    walk(n, segs)
                } else {
                    None
                }
            }
        },
    }
}

/// Walks already-split segments down a tree.
fn walk_segments<'a>(doc: &'a DocValue, segs: &Vec<String>) -> (r: Option<&'a DocValue>)
    ensures
        match r {
            Some(v) => walk(doc@, segs@.map_values(|t: String| t@)) == Some(v@),
            None => walk(doc@, segs@.map_values(|t: String| t@)) is None,
        },
{
    let ghost all = segs@.map_values(|t: String| t@);
    let mut cur: &DocValue = doc;
    let n = segs.len();
    let mut k: usize = 0;
    proof {
        assert(all.skip(0) =~= all);
    }
    while k < n
        invariant
            n == segs@.len(),
            k <= n,
            all == segs@.map_values(|t: String| t@),
            walk(doc@, all) == walk(cur@, all.skip(k as int)),
        decreases n - k,
    {
        let next = match cur.get(segs[k].as_str()) {
            Some(c) => c,
            None => {
                proof {
                    assert(all.skip(k as int)[0] == all[k as int]);
                }
                return None;
            },
        };
        proof {
            assert(all.skip(k as int)[0] == all[k as int]);
            assert(all.skip(k as int).drop_first() =~= all.skip(k as int + 1));
        }
        cur = next;
        k = k + 1;
    }
    proof {
        assert(all.skip(n as int).len() == 0);
    }
    Some(cur)
}

/// Resolves a sub-path to the sub-tree it addresses, if any.
pub fn locate<'a>(doc: &'a DocValue, sub_path: &str, scheme: PathScheme) -> (r: Option<
    &'a DocValue,
>)
    ensures
        match r {
            Some(v) => locate_spec(doc@, sub_path@, scheme) == Some(v@),
            None => locate_spec(doc@, sub_path@, scheme) is None,
        },
{
    match scheme {
        PathScheme::Dotted => {
            let segs = split_on(sub_path, '.');
            proof {
                assert(segs@.map_values(|t: String| t@) =~= split_spec(sub_path@, '.'));
            }
            if !check_segments(&segs) {
                return None;
            }
            walk_segments(doc, &segs)
        },
        PathScheme::Pointer => {
            let len = sub_path.unicode_len();
            if len == 0 {
                return Some(doc);
            }
            if sub_path.get_char(0) != '/' {
                return None;
            }
            let tail = sub_path.substring_char(1, len);
            let segs = split_on(tail, '/');
            proof {
                assert(tail@ =~= sub_path@.skip(1));
                assert(segs@.map_values(|t: String| t@) =~= split_spec(sub_path@.skip(1), '/'));
            }
            if !check_segments(&segs) {
                return None;
            }
            walk_segments(doc, &segs)
        },
    }
}

/// Whether every split segment is non-empty.
fn check_segments(segs: &Vec<String>) -> (r: bool)
    ensures
        r == segments_valid(segs@.map_values(|t: String| t@)),
{
    let ghost all = segs@.map_values(|t: String| t@);
    let n = segs.len();
    let mut k: usize = 0;
    while k < n
        invariant
            n == segs@.len(),
            k <= n,
            all == segs@.map_values(|t: String| t@),
            forall|j: int| 0 <= j < k ==> all[j].len() > 0,
        decreases n - k,
    {
        if segs[k].as_str().is_empty() {
            proof {
                assert(all[k as int] == segs@[k as int]@);
                assert(all[k as int].len() == 0);
            }
            return false;
        }
        k = k + 1;
    }
    true
}

/// The view of an optional string: its characters, if it is there.
pub open spec fn opt_text(p: Option<String>) -> Option<Seq<char>> {
    match p {
        Some(s) => Some(s@),
        None => None,
    }
}

/// A configuration reference: where the document lives, and an optional
/// sub-path inside it, written `location#sub.path` by the user.
pub struct ConfigReference {
    pub location: String,
    pub sub_path: Option<String>,
}

/// How a raw reference string divides: everything before the first `#`
/// names the location; everything after it is the sub-path. Without a
/// `#` the whole string is the location and there is no sub-path.
pub open spec fn reference_spec(raw: Seq<char>) -> (Seq<char>, Option<Seq<char>>) {
    match raw.index_of_first('#') {
        None => (raw, None),
        Some(i) => (raw.take(i), Some(raw.skip(i + 1))),
    }
}

impl ConfigReference {
    /// The model of a reference: its location and optional sub-path.
    pub open spec fn view_parts(&self) -> (Seq<char>, Option<Seq<char>>) {
        (self.location@, opt_text(self.sub_path))
    }

    /// Splits a raw reference string at its first `#`.
    pub fn parse(raw: &str) -> (r: ConfigReference)
        ensures
            r.view_parts() == reference_spec(raw@),
    {
        let len = raw.unicode_len();
        let mut i: usize = 0;
        while i < len
            invariant
                len == raw@.len(),
                i <= len,
                forall|j: int| 0 <= j < i ==> raw@[j] != '#',
            decreases len - i,
        {
            if raw.get_char(i) == '#' {
                let location = raw.substring_char(0, i).to_owned();
                let sub = raw.substring_char(i + 1, len).to_owned();
                proof {
                    raw@.index_of_first_ensures('#');
                    let fi = raw@.index_of_first('#')->Some_0;
                    if fi < i {
                        assert(raw@[fi] != '#');
                    }
                    assert(fi == i);
                    assert(raw@.subrange(0, i as int) =~= raw@.take(i as int));
                    assert(raw@.subrange(i + 1, len as int) =~= raw@.skip(i + 1));
                }
                return ConfigReference { location, sub_path: Some(sub) };
            }
            i = i + 1;
        }
        proof {
            raw@.index_of_first_ensures('#');
            if raw@.index_of_first('#') is Some {
                let fi = raw@.index_of_first('#')->Some_0;
                assert(raw@[fi] != '#');
            }
        }
        ConfigReference { location: raw.to_owned(), sub_path: None }
    }
}

} // verus!
