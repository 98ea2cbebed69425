//! Paths of resources in the archive of a book.
//!
//! A drawing may refer to images by paths that are meant from the place of
//! the drawing. The path of such an image in the archive is found here.

use vstd::prelude::*;
use vstd::std_specs::iter::IteratorSpec;

verus! {

/// Calls `collect` of std on the characters, which gives the text that they
/// spell.
#[verifier::external_body]
pub(crate) fn text_of(chars: &Vec<char>) -> (s: String)
    ensures
        s@ == chars@,
{
    chars.iter().collect()
}

/// The characters of `s`.
pub fn chars_of(s: &str) -> (v: Vec<char>)
    ensures
        v@ == s@,
{
    let mut v: Vec<char> = Vec::new();
    let mut it = s.chars();
    loop
        invariant
            v@.len() <= s@.len(),
            it.remaining() == s@.skip(v@.len() as int),
            it.obeys_prophetic_iter_laws(),
            it.decrease() is Some,
            v@ == s@.take(v@.len() as int),
        decreases s@.len() - v@.len(),
    {
        match it.next() {
            Some(c) => {
                let ghost n = v@.len() as int;
                assert(c == s@[n]);
                v.push(c);
                assert(it.remaining() =~= s@.skip(n + 1));
                assert(v@ =~= s@.take(n + 1));
            },
            None => {
                assert(v@.len() == s@.len());
                assert(s@.take(s@.len() as int) =~= s@);
                return v;
            },
        }
    }
}

/// A path cut at its slashes, as far as it is read: the segments that are
/// complete, and the segment that is being read.
pub struct Cut {
    pub done: Seq<Seq<char>>,
    pub open: Seq<char>,
}

/// The first `k` characters of `path`, cut at the slashes.
pub open spec fn cut(path: Seq<char>, k: int) -> Cut
    decreases k,
{
    if k <= 0 {
        Cut { done: Seq::empty(), open: Seq::empty() }
    } else {
        let before = cut(path, k - 1);
        if path[k - 1] == '/' {
            Cut { done: before.done.push(before.open), open: Seq::empty() }
        } else {
            Cut { done: before.done, open: before.open.push(path[k - 1]) }
        }
    }
}

/// The segments of `path`: what stands between its slashes, before the
/// first and behind the last. A path has one segment more than slashes.
pub open spec fn segments(path: Seq<char>) -> Seq<Seq<char>> {
    let c = cut(path, path.len() as int);
    c.done.push(c.open)
}

/// Whether `href` names something outside of the archive: it has a colon
/// in front of its first slash, as an address with a scheme has.
pub open spec fn is_external(href: Seq<char>) -> bool {
    segments(href)[0].contains(':')
}

/// The way that the first `k` of `segs` lead from the place `at`: a
/// segment of nothing or of one dot leads nowhere, two dots lead out of the
/// innermost directory, any other segment leads into the directory of that
/// name. There is no way out of the root.
pub open spec fn walked(at: Seq<Seq<char>>, segs: Seq<Seq<char>>, k: int) -> Option<Seq<Seq<char>>>
    decreases k,
{
    if k <= 0 {
        Some(at)
    } else {
        match walked(at, segs, k - 1) {
            Some(place) => {
                let seg = segs[k - 1];
                if seg.len() == 0 || seg == seq!['.'] {
                    Some(place)
                } else if seg == seq!['.', '.'] {
                    if place.len() > 0 {
                        Some(place.drop_last())
                    } else {
                        None
                    }
                } else {
                    Some(place.push(seg))
                }
            },
            None => None,
        }
    }
}

/// The first `k` of `segs` with slashes between them.
pub open spec fn joined(segs: Seq<Seq<char>>, k: int) -> Seq<char>
    decreases k,
{
    if k <= 0 {
        Seq::empty()
    } else if k == 1 {
        segs[0]
    } else {
        joined(segs, k - 1) + seq!['/'] + segs[k - 1]
    }
}

/// The path in the archive of what `href` names in a drawing at `owner`.
///
/// The way starts in the directory of the drawing, or at the root of the
/// archive for a reference that starts with a slash. Nothing is named by an
/// empty reference, by one that leads out of the archive, or by one to an
/// address outside of it.
pub open spec fn resolved(owner: Seq<char>, href: Seq<char>) -> Option<Seq<char>> {
    if href.len() == 0 || is_external(href) {
        None
    } else {
        let start = if href[0] == '/' {
            Some(Seq::<Seq<char>>::empty())
        } else {
            walked(Seq::empty(), segments(owner).drop_last(), segments(owner).len() - 1)
        };
        match start {
            Some(dir) => match walked(dir, segments(href), segments(href).len() as int) {
                Some(place) => Some(joined(place, place.len() as int)),
                None => None,
            },
            None => None,
        }
    }
}

/// The segments of a list as values.
pub open spec fn segment_views(segs: Seq<Vec<char>>) -> Seq<Seq<char>> {
    segs.map_values(|s: Vec<char>| s@)
}

/// The segments of `path`.
pub fn split(path: &Vec<char>) -> (segs: Vec<Vec<char>>)
    ensures
        segment_views(segs@) == segments(path@),
        segs@.len() >= 1,
{
    let mut done: Vec<Vec<char>> = Vec::new();
    let mut open: Vec<char> = Vec::new();
    let mut k: usize = 0;
    assert(segment_views(done@) =~= cut(path@, 0).done);
    while k < path.len()
        invariant
            k <= path@.len(),
            segment_views(done@) == cut(path@, k as int).done,
            open@ == cut(path@, k as int).open,
        decreases path@.len() - k,
    {
        let c = path[k];
        let ghost before = done@;
        if c == '/' {
            let mut finished: Vec<char> = Vec::new();
            std::mem::swap(&mut open, &mut finished);
            done.push(finished);
            assert(segment_views(done@) =~= segment_views(before).push(finished@));
        } else {
            open.push(c);
        }
        k = k + 1;
    }
    let ghost before = done@;
    done.push(open);
    assert(segment_views(done@) =~= segment_views(before).push(open@));
    done
}

fn is_dot(seg: &Vec<char>) -> (b: bool)
    ensures
        b == (seg@ == seq!['.']),
{
    let b = seg.len() == 1 && seg[0] == '.';
    assert(b ==> seg@ =~= seq!['.']);
    b
}

fn is_dot_dot(seg: &Vec<char>) -> (b: bool)
    ensures
        b == (seg@ == seq!['.', '.']),
{
    let b = seg.len() == 2 && seg[0] == '.' && seg[1] == '.';
    assert(b ==> seg@ =~= seq!['.', '.']);
    b
}

/// Goes the way of the first `n` of `segs` from the place `at`.
#[verifier::loop_isolation(false)]
fn walk(at: Vec<Vec<char>>, segs: &Vec<Vec<char>>, n: usize) -> (r: Option<Vec<Vec<char>>>)
    requires
        n <= segs@.len(),
    ensures
        match r {
            Some(place) => walked(segment_views(at@), segment_views(segs@), n as int) == Some(
                segment_views(place@),
            ),
            None => walked(segment_views(at@), segment_views(segs@), n as int) is None,
        },
{
    let ghost from = segment_views(at@);
    let ghost all = segment_views(segs@);
    let mut place = at;
    let mut k: usize = 0;
    while k < n
        invariant
            k <= n <= segs@.len(),
            all == segment_views(segs@),
            walked(from, all, k as int) == Some(segment_views(place@)),
        decreases n - k,
    {
        let seg = &segs[k];
        assert(all[k as int] == seg@);
        let ghost before = place@;
        if seg.len() == 0 || is_dot(seg) {
        } else if is_dot_dot(seg) {
            if place.len() == 0 {
                proof {
                    assert(walked(from, all, k + 1) is None);
                    lemma_walked_stays_lost(from, all, k + 1, n as int);
                }
                return None;
            }
            place.pop();
            assert(segment_views(place@) =~= segment_views(before).drop_last());
        } else {
            place.push(seg.clone());
            assert(segment_views(place@) =~= segment_views(before).push(seg@));
        }
        k = k + 1;
    }
    Some(place)
}

/// A way that has led out of the root leads nowhere.
proof fn lemma_walked_stays_lost(at: Seq<Seq<char>>, segs: Seq<Seq<char>>, k: int, n: int)
    requires
        0 <= k <= n,
        walked(at, segs, k) is None,
    ensures
        walked(at, segs, n) is None,
    decreases n - k,
{
    if k < n {
        lemma_walked_stays_lost(at, segs, k, n - 1);
    }
}

/// The segments with slashes between them.
fn join(segs: &Vec<Vec<char>>) -> (path: Vec<char>)
    ensures
        path@ == joined(segment_views(segs@), segs@.len() as int),
{
    let ghost all = segment_views(segs@);
    let mut path: Vec<char> = Vec::new();
    let mut k: usize = 0;
    while k < segs.len()
        invariant
            k <= segs@.len(),
            all == segment_views(segs@),
            path@ == joined(all, k as int),
        decreases segs@.len() - k,
    {
        let seg = &segs[k];
        assert(all[k as int] == seg@);
        let ghost before = path@;
        if k > 0 {
            path.push('/');
        }
        let mut i: usize = 0;
        while i < seg.len()
            invariant
                i <= seg@.len(),
                path@ == (if k > 0 {
                    before + seq!['/']
                } else {
                    before
                }) + seg@.take(i as int),
            decreases seg@.len() - i,
        {
            path.push(seg[i]);
            i = i + 1;
            assert(seg@.take(i as int) =~= seg@.take(i - 1).push(seg@[i - 1]));
        }
        assert(seg@.take(seg@.len() as int) =~= seg@);
        k = k + 1;
        assert(path@ =~= joined(all, k as int));
    }
    path
}

fn has_colon(seg: &Vec<char>) -> (b: bool)
    ensures
        b == seg@.contains(':'),
{
    let mut i: usize = 0;
    while i < seg.len()
        invariant
            i <= seg@.len(),
            forall|j: int| 0 <= j < i ==> seg@[j] != ':',
        decreases seg@.len() - i,
    {
        if seg[i] == ':' {
            return true;
        }
        i = i + 1;
    }
    false
}

/// The path in the archive of what `href` names in a drawing at `owner`.
pub fn resolve(owner: &str, href: &str) -> (r: Option<String>)
    ensures
        match r {
            Some(path) => resolved(owner@, href@) == Some(path@),
            None => resolved(owner@, href@) is None,
        },
{
    let target = chars_of(href);
    if target.len() == 0 {
        return None;
    }
    let steps = split(&target);
    assert(segment_views(steps@)[0] == steps@[0]@);
    if has_colon(&steps[0]) {
        return None;
    }
    let root: Vec<Vec<char>> = Vec::new();
    assert(segment_views(root@) =~= Seq::<Seq<char>>::empty());
    let start = if target[0] == '/' {
        Some(root)
    } else {
        let place = split(&chars_of(owner));
        proof {
            lemma_walked_reads_front(
                Seq::empty(),
                segment_views(place@),
                segments(owner@).drop_last(),
                place@.len() - 1,
            );
        }
        walk(root, &place, place.len() - 1)
    };
    let dir = match start {
        Some(dir) => dir,
        None => {
            return None;
        },
    };
    match walk(dir, &steps, steps.len()) {
        Some(place) => Some(text_of(&join(&place))),
        None => None,
    }
}

/// A way of `k` steps reads the first `k` segments only.
proof fn lemma_walked_reads_front(
    at: Seq<Seq<char>>,
    a: Seq<Seq<char>>,
    b: Seq<Seq<char>>,
    k: int,
)
    requires
        0 <= k <= a.len(),
        k <= b.len(),
        forall|i: int| 0 <= i < k ==> a[i] == b[i],
    ensures
        walked(at, a, k) == walked(at, b, k),
    decreases k,
{
    if k > 0 {
        lemma_walked_reads_front(at, a, b, k - 1);
    }
}

/// What a drawing may load while it is made into an image.
#[derive(Debug, Clone, Copy, PartialEq, Eq, Structural)]
pub struct ImagePolicy {
    /// Whether images that the drawing refers to are loaded.
    pub embedded_images: bool,
}

impl ImagePolicy {
    /// The policy for a drawing of a chapter: the images it refers to are
    /// loaded.
    pub fn chapter() -> (p: Self)
        ensures
            p.embedded_images,
    {
        ImagePolicy { embedded_images: true }
    }

    /// The policy for an image that a drawing refers to: an image in an
    /// image loads nothing further, so that the loading comes to an end.
    pub fn embedded(self) -> (p: Self)
        ensures
            !p.embedded_images,
    {
        ImagePolicy { embedded_images: false }
    }

    /// The path in the archive of the image `href` of a drawing at `owner`,
    /// where the policy lets it be loaded.
    pub fn resolve(&self, owner: &str, href: &str) -> (r: Option<String>)
        ensures
            match r {
                Some(path) => self.embedded_images && resolved(owner@, href@) == Some(path@),
                None => !self.embedded_images || resolved(owner@, href@) is None,
            },
    {
        if self.embedded_images {
            resolve(owner, href)
        } else {
            None
        }
    }
}

} // verus!
