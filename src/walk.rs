//! The walk along chains of symbolic links. The walk decides and the caller
//! looks at the filesystem: it asks `next_path` which path to look at, and
//! tells `found_link` where a path that is a symbolic link points.

use vstd::prelude::*;

verus! {

/// The index of the last `/` of `p`, or -1 where it has none.
pub open spec fn last_slash(p: Seq<char>) -> int
    decreases p.len(),
{
    if p.len() == 0 {
        -1
    } else if p.last() == '/' {
        p.len() - 1
    } else {
        last_slash(p.drop_last())
    }
}

/// The directory that holds `p`: what comes before its last `/`, the root
/// where that is the leading `/`, and the empty path where `p` has no `/`.
/// This works on the text alone: unlike `std::path::Path::parent`, it does
/// not fold a doubled `/` or drop a trailing `/` first (`/a//b` gives `/a/`,
/// `/a/b/` gives `/a/b`). The paths that the loader lists and the links it
/// leads through hold neither.
pub open spec fn parent_of(p: Seq<char>) -> Seq<char> {
    let k = last_slash(p);
    if k < 0 {
        Seq::<char>::empty()
    } else if k == 0 {
        seq!['/']
    } else {
        p.subrange(0, k)
    }
}

/// `name` inside `dir`; an empty `dir` leaves `name` as it is.
pub open spec fn join(dir: Seq<char>, name: Seq<char>) -> Seq<char> {
    if dir.len() == 0 {
        name
    } else if dir.last() == '/' {
        dir + name
    } else {
        dir + seq!['/'] + name
    }
}

pub open spec fn is_absolute(p: Seq<char>) -> bool {
    p.len() > 0 && p[0] == '/'
}

/// Where a symbolic link at `link` whose target is `target` leads: an
/// absolute target as it is, a relative one inside the link's own directory.
pub open spec fn destination(link: Seq<char>, target: Seq<char>) -> Seq<char> {
    if is_absolute(target) {
        target
    } else {
        join(parent_of(link), target)
    }
}

pub open spec fn texts(v: Seq<String>) -> Seq<Seq<char>> {
    v.map_values(|s: String| s@)
}

/// The state of a walk.
pub struct WalkModel {
    /// Every path handed out so far, each once, in that order.
    pub seen: Seq<Seq<char>>,
    /// Where in `seen` the chain being followed starts.
    pub chain: int,
    /// Where the chain being followed leads next, once a link was reported.
    pub next: Option<Seq<char>>,
    /// The paths whose chains are still to follow, the next one last.
    pub pending: Seq<Seq<char>>,
    /// The ends of the chains followed: the paths reported as no link, and
    /// each path at which a chain came back onto itself (a cycle).
    pub ends: Seq<Seq<char>>,
}

/// A walk that is to follow the chain of each of `deps`, last first.
pub open spec fn walk_start(deps: Seq<Seq<char>>) -> WalkModel {
    WalkModel { seen: Seq::empty(), chain: 0, next: None, pending: deps, ends: Seq::empty() }
}

/// The walk steps on to the next path to look at, if any, and records it
/// as seen. Where the chain leads to a path seen before, the chain ends
/// there; where that path was seen on this very chain, the chain is a cycle
/// and the path is one of its ends. Then the next pending path starts a new
/// chain, unless it was seen before (its chain has been followed already).
pub open spec fn take_next(m: WalkModel) -> (WalkModel, Option<Seq<char>>)
    decreases 2 * m.pending.len() + (if m.next is Some { 1int } else { 0int }),
{
    match m.next {
        Some(p) => {
            let m1 = WalkModel { next: None, ..m };
            if m.seen.contains(p) {
                if m.seen.subrange(m.chain, m.seen.len() as int).contains(p) && !m.ends.contains(
                    p,
                ) {
                    take_next(WalkModel { ends: m.ends.push(p), ..m1 })
                } else {
                    take_next(m1)
                }
            } else {
                (WalkModel { seen: m.seen.push(p), ..m1 }, Some(p))
            }
        },
        None => if m.pending.len() == 0 {
            (m, None)
        } else {
            take_next(
                WalkModel {
                    next: Some(m.pending.last()),
                    pending: m.pending.drop_last(),
                    chain: m.seen.len() as int,
                    ..m
                },
            )
        },
    }
}

/// The path `p` was reported to be no link: it ends its chain.
pub open spec fn file_found(m: WalkModel, p: Seq<char>) -> WalkModel {
    if m.ends.contains(p) {
        m
    } else {
        WalkModel { ends: m.ends.push(p), ..m }
    }
}

/// The path `path` was reported to be a link to `target`: the chain goes on
/// where it leads.
pub open spec fn link_found(m: WalkModel, path: Seq<char>, target: Seq<char>) -> WalkModel {
    WalkModel { next: Some(destination(path, target)), ..m }
}

pub proof fn lemma_last_slash_of_joined(dir: Seq<char>, name: Seq<char>)
    requires
        forall|i: int| 0 <= i < name.len() ==> name[i] != '/',
    ensures
        last_slash(dir + seq!['/'] + name) == dir.len(),
    decreases name.len(),
{
    let p = dir + seq!['/'] + name;
    if name.len() == 0 {
        assert(p.last() == '/');
    } else {
        assert(p.drop_last() =~= dir + seq!['/'] + name.drop_last());
        lemma_last_slash_of_joined(dir, name.drop_last());
    }
}

/// A relative link target is taken in the directory of the link: the link
/// `dir/name` to a relative `target` leads to `dir/target`, so a chain of
/// relative links (`lib.so -> lib.so.1 -> lib.so.1.2`) stays in `dir`.
pub proof fn lemma_relative_target_in_link_dir(dir: Seq<char>, name: Seq<char>, target: Seq<char>)
    requires
        dir.len() > 0,
        dir.last() != '/',
        forall|i: int| 0 <= i < name.len() ==> name[i] != '/',
        !is_absolute(target),
    ensures
        destination(dir + seq!['/'] + name, target) == dir + seq!['/'] + target,
{
    let p = dir + seq!['/'] + name;
    lemma_last_slash_of_joined(dir, name);
    assert(p.subrange(0, dir.len() as int) =~= dir);
}

/// A path that is not a symbolic link is its own end: the walk from it hands
/// it out once, records it as seen, and ends with it as the one path found.
pub proof fn lemma_plain_path_is_kept(p: Seq<char>)
    ensures
        take_next(walk_start(seq![p])).1 == Some(p),
        take_next(walk_start(seq![p])).0.seen == seq![p],
        take_next(file_found(take_next(walk_start(seq![p])).0, p)).1 == None::<Seq<char>>,
        take_next(file_found(take_next(walk_start(seq![p])).0, p)).0.seen == seq![p],
        take_next(file_found(take_next(walk_start(seq![p])).0, p)).0.ends == seq![p],
{
    let m0 = walk_start(seq![p]);
    let m1 = WalkModel { next: Some(p), pending: Seq::empty(), chain: 0, ..m0 };
    assert(seq![p].drop_last() =~= Seq::<Seq<char>>::empty());
    assert(take_next(m0) == take_next(m1));
    assert(!Seq::<Seq<char>>::empty().contains(p));
    assert(Seq::<Seq<char>>::empty().push(p) =~= seq![p]);
    let m2 = take_next(m1).0;
    assert(!m2.ends.contains(p));
    let m3 = file_found(m2, p);
    assert(m3.ends =~= seq![p]);
    assert(take_next(m3) == (m3, None::<Seq<char>>));
}

/// A cycle of links `a -> b -> a` ends the walk: from `a` the walk hands
/// out `a`, then `b`, then nothing; it has seen both, and the chain ends at
/// `a`, where it came back onto itself.
pub proof fn lemma_link_cycle_ends(a: Seq<char>, b: Seq<char>, to_b: Seq<char>, to_a: Seq<char>)
    requires
        a != b,
        destination(a, to_b) == b,
        destination(b, to_a) == a,
    ensures
        ({
            let (m1, r1) = take_next(walk_start(seq![a]));
            let (m2, r2) = take_next(link_found(m1, a, to_b));
            let (m3, r3) = take_next(link_found(m2, b, to_a));
            &&& r1 == Some(a)
            &&& r2 == Some(b)
            &&& r3 == None::<Seq<char>>
            &&& m3.seen == seq![a, b]
            &&& m3.ends == seq![a]
        }),
{
    let m0 = walk_start(seq![a]);
    assert(seq![a].drop_last() =~= Seq::<Seq<char>>::empty());
    assert(!Seq::<Seq<char>>::empty().contains(a));
    assert(Seq::<Seq<char>>::empty().push(a) =~= seq![a]);
    reveal_with_fuel(take_next, 2);
    let m1 = take_next(m0).0;
    assert(m1.seen == seq![a] && m1.chain == 0 && m1.pending.len() == 0);
    assert(!seq![a].contains(b)) by {
        assert(seq![a][0] != b);
    }
    assert(seq![a].push(b) =~= seq![a, b]);
    let m2 = take_next(link_found(m1, a, to_b)).0;
    assert(m2.seen == seq![a, b] && m2.chain == 0 && m2.ends.len() == 0);
    assert(seq![a, b][0] == a);
    assert(seq![a, b].contains(a));
    assert(seq![a, b].subrange(0, 2) =~= seq![a, b]);
    assert(!m2.ends.contains(a));
    let m4 = WalkModel { ends: m2.ends.push(a), next: None, ..m2 };
    assert(take_next(link_found(m2, b, to_a)) == take_next(m4));
    assert(m2.ends.push(a) =~= seq![a]);
}

/// A walk: the paths seen so far, each once, the ends of the chains
/// followed, and the paths still to follow.
pub struct Walk {
    seen: Vec<String>,
    chain: usize,
    next: Option<String>,
    pending: Vec<String>,
    ends: Vec<String>,
}

pub open spec fn text_of(p: Option<String>) -> Option<Seq<char>> {
    match p {
        Some(s) => Some(s@),
        None => None,
    }
}

impl View for Walk {
    type V = WalkModel;

    closed spec fn view(&self) -> WalkModel {
        WalkModel {
            seen: texts(self.seen@),
            chain: self.chain as int,
            next: text_of(self.next),
            pending: texts(self.pending@),
            ends: texts(self.ends@),
        }
    }
}

/// Whether `p` is among `v[from..]`.
fn holds_from(v: &Vec<String>, from: usize, p: &String) -> (r: bool)
    requires
        from <= v@.len(),
    ensures
        r == texts(v@).subrange(from as int, v@.len() as int).contains(p@),
{
    let ghost tail = texts(v@).subrange(from as int, v@.len() as int);
    let mut i: usize = from;
    while i < v.len()
        invariant
            from <= i <= v@.len(),
            tail == texts(v@).subrange(from as int, v@.len() as int),
            forall|j: int| from <= j < i ==> texts(v@)[j] != p@,
        decreases v.len() - i,
    {
        if v[i] == *p {
            assert(tail[i - from] == p@);
            return true;
        }
        i = i + 1;
    }
    assert forall|j: int| 0 <= j < tail.len() implies tail[j] != p@ by {
        assert(tail[j] == texts(v@)[j + from]);
    }
    false
}

/// Whether `p` is among `v`.
fn holds(v: &Vec<String>, p: &String) -> (r: bool)
    ensures
        r == texts(v@).contains(p@),
{
    assert(texts(v@).subrange(0, v@.len() as int) =~= texts(v@));
    holds_from(v, 0, p)
}

impl Walk {
    /// No path is seen twice nor ends two chains, and the chain being
    /// followed starts within what was seen.
    pub open spec fn wf(&self) -> bool {
        &&& self@.seen.no_duplicates()
        &&& self@.ends.no_duplicates()
        &&& 0 <= self@.chain <= self@.seen.len()
    }

    /// A walk that is to follow the chain of each of `deps`, last first.
    pub fn new(deps: Vec<String>) -> (w: Walk)
        ensures
            w.wf(),
            w@ == walk_start(texts(deps@)),
    {
        let w = Walk { seen: Vec::new(), chain: 0, next: None, pending: deps, ends: Vec::new() };
        assert(w@.seen =~= Seq::<Seq<char>>::empty());
        assert(w@.ends =~= Seq::<Seq<char>>::empty());
        w
    }

    /// The next path to look at, now recorded as seen; `None` once the walk
    /// is over. The caller then reports the path with `found_file` or
    /// `found_link`.
    pub fn next_path(&mut self) -> (r: Option<String>)
        requires
            old(self).wf(),
        ensures
            final(self).wf(),
            take_next(old(self)@) == (final(self)@, text_of(r)),
    {
        loop
            invariant
                self.wf(),
                take_next(old(self)@) == take_next(self@),
            decreases 2 * self.pending@.len() + (if self.next is Some { 1int } else { 0int }),
        {
            let ghost m = self@;
            match self.next.take() {
                Some(p) => {
                    if !holds(&self.seen, &p) {
                        let ghost seen_before = self.seen@;
                        self.seen.push(p.clone());
                        assert(texts(self.seen@) =~= texts(seen_before).push(p@));
                        return Some(p);
                    }
                    if holds_from(&self.seen, self.chain, &p) && !holds(&self.ends, &p) {
                        let ghost ends_before = self.ends@;
                        self.ends.push(p);
                        assert(texts(self.ends@) =~= texts(ends_before).push(m.next->0));
                    }
                },
                None => {
                    match self.pending.pop() {
                        None => {
                            return None;
                        },
                        Some(p) => {
                            assert(texts(self.pending@) =~= m.pending.drop_last());
                            self.chain = self.seen.len();
                            self.next = Some(p);
                        },
                    }
                },
            }
        }
    }

    /// Reports that `path`, the path last handed out, is no symbolic link:
    /// it ends its chain.
    pub fn found_file(&mut self, path: &String)
        requires
            old(self).wf(),
            old(self)@.seen.len() > 0,
            path@ == old(self)@.seen.last(),
        ensures
            final(self).wf(),
            final(self)@ == file_found(old(self)@, path@),
    {
        if !holds(&self.ends, path) {
            let ghost ends_before = self.ends@;
            self.ends.push(path.clone());
            assert(texts(self.ends@) =~= texts(ends_before).push(path@));
        }
    }

    /// Reports that `path`, the path last handed out, is a symbolic link to
    /// `target`: the chain goes on where it leads.
    pub fn found_link(&mut self, path: &String, target: &str)
        requires
            old(self).wf(),
            old(self)@.seen.len() > 0,
            path@ == old(self)@.seen.last(),
        ensures
            final(self).wf(),
            final(self)@ == link_found(old(self)@, path@, target@),
    {
        self.next = Some(link_destination(path.as_str(), target));
    }

    /// The paths found: the end of each chain followed, each once.
    pub fn into_found(self) -> (r: Vec<String>)
        requires
            self.wf(),
        ensures
            texts(r@) == self@.ends,
            texts(r@).no_duplicates(),
    {
        self.ends
    }
}

/// The index of the last `/` of `p`, if any.
fn find_last_slash(p: &str) -> (r: Option<usize>)
    ensures
        match r {
            Some(k) => last_slash(p@) == k as int && k < p@.len(),
            None => last_slash(p@) == -1,
        },
{
    let n = p.unicode_len();
    let mut i: usize = n;
    proof {
        assert(p@.subrange(0, n as int) =~= p@);
    }
    while i > 0
        invariant
            i <= n == p@.len(),
            last_slash(p@) == last_slash(p@.subrange(0, i as int)),
        decreases i,
    {
        let ghost pre = p@.subrange(0, i as int);
        assert(pre.drop_last() =~= p@.subrange(0, i - 1));
        if p.get_char(i - 1) == '/' {
            return Some(i - 1);
        }
        i = i - 1;
    }
    None
}

/// Where a symbolic link at `link` with target `target` leads: an absolute
/// target as it is, a relative one inside the directory that holds the link.
pub fn link_destination(link: &str, target: &str) -> (r: String)
    ensures
        r@ == destination(link@, target@),
{
    if target.unicode_len() > 0 && target.get_char(0) == '/' {
        return target.to_owned();
    }
    proof {
        reveal_strlit("/");
    }
    let mut dir = match find_last_slash(link) {
        None => {
            return target.to_owned();
        },
        Some(0) => "/".to_owned(),
        Some(k) => link.substring_char(0, k).to_owned(),
    };
    assert(dir@ == parent_of(link@) && dir@.len() > 0);
    if dir.get_char(dir.unicode_len() - 1) != '/' {
        dir.append("/");
    }
    dir.append(target);
    dir
}

} // verus!
