//! Paths as text, with `/` between their components.

use vstd::prelude::*;
use vstd::string::*;

use crate::text::{
    any_of, chars_of, find, law_split, lemma_find, opt_text, same_text, split_at_first, split_once, starts_with, string_of,
    texts, Pattern,
};

verus! {

/// Where the last `/` of a path stands; -1 where there is none.
pub open spec fn last_slash(path: Seq<char>) -> int
    decreases path.len(),
{
    if path.len() == 0 {
        -1
    } else if path.last() == '/' {
        path.len() - 1
    } else {
        last_slash(path.drop_last())
    }
}

/// The last component of a path that is not `.`, unless it is `..`. Slashes at
/// the end and doubled slashes do not count.
pub open spec fn file_name(path: Seq<char>) -> Option<Seq<char>>
    decreases path.len(),
{
    let at = last_slash(path);
    let last = path.skip(at + 1);
    if last == ".."@ {
        None
    } else if last.len() == 0 || last == "."@ {
        if 0 <= at < path.len() {
            file_name(path.take(at))
        } else {
            None
        }
    } else {
        Some(last)
    }
}

/// `last_slash` is the last position that holds a slash.
pub proof fn lemma_last_slash(path: Seq<char>)
    ensures
        -1 <= last_slash(path) < path.len(),
        last_slash(path) >= 0 ==> path[last_slash(path)] == '/',
        forall|k: int| last_slash(path) < k < path.len() ==> #[trigger] path[k] != '/',
    decreases path.len(),
{
    if path.len() != 0 && path.last() != '/' {
        lemma_last_slash(path.drop_last());
        assert forall|k: int| last_slash(path) < k < path.len() implies #[trigger] path[k]
            != '/' by {
            if k < path.len() - 1 {
                assert(path[k] == path.drop_last()[k]);
            }
        }
    }
}

/// The last position that holds a slash is `last_slash`.
proof fn lemma_last_slash_is(path: Seq<char>, at: int)
    requires
        -1 <= at < path.len(),
        at >= 0 ==> path[at] == '/',
        forall|k: int| at < k < path.len() ==> #[trigger] path[k] != '/',
    ensures
        last_slash(path) == at,
{
    lemma_last_slash(path);
    let f = last_slash(path);
    if f < at {
        assert(path[at] != '/');
    } else if at < f {
        assert(path[f] != '/');
    }
}

/// The name at the end of a path.
pub fn base_name(path: &str) -> (r: Option<String>)
    ensures
        crate::text::opt_text(r) == file_name(path@),
{
    let v = chars_of(path);
    let mut end: usize = v.len();
    assert(v@.take(end as int) =~= v@);
    loop
        invariant
            v@ == path@,
            end <= v@.len(),
            file_name(v@.take(end as int)) == file_name(path@),
        decreases end,
    {
        let ghost cut = v@.take(end as int);
        let mut start: usize = end;
        while start > 0 && v[start - 1] != '/'
            invariant
                start <= end <= v@.len(),
                forall|k: int| start <= k < end ==> #[trigger] v@[k] != '/',
            decreases start,
        {
            start -= 1;
        }
        let last = string_of(&v, start, end);
        proof {
            lemma_last_slash_is(cut, start - 1);
            assert(cut.skip(start as int) =~= last@);
        }
        if same_text(last.as_str(), "..") {
            return None;
        }
        if start == end || same_text(last.as_str(), ".") {
            if start == 0 {
                return None;
            }
            assert(cut.take(start - 1) =~= v@.take(start - 1));
            end = start - 1;
        } else {
            return Some(last);
        }
    }
}

/// A path with a relative path, or a name, put behind it; an absolute one takes
/// its place.
pub open spec fn join(base: Seq<char>, rel: Seq<char>) -> Seq<char> {
    if rel.len() > 0 && rel[0] == '/' {
        rel
    } else if base.len() == 0 || base.last() == '/' {
        base + rel
    } else {
        base + "/"@ + rel
    }
}

/// A path with a relative path, or a name, put behind it.
pub fn join_path(base: &str, rel: &str) -> (r: String)
    ensures
        r@ == join(base@, rel@),
{
    let b = chars_of(base);
    let t = chars_of(rel);
    if t.len() > 0 && t[0] == '/' {
        rel.to_owned()
    } else if b.len() == 0 || b[b.len() - 1] == '/' {
        base.to_owned().concat(rel)
    } else {
        base.to_owned().concat("/").concat(rel)
    }
}

/// A path with names put behind it, one after the other.
pub open spec fn join_all(base: Seq<char>, names: Seq<Seq<char>>) -> Seq<char>
    decreases names.len(),
{
    if names.len() == 0 {
        base
    } else {
        join(join_all(base, names.drop_last()), names.last())
    }
}

/// Names put behind a path in two goes are put behind it in one.
pub proof fn lemma_join_all_concat(base: Seq<char>, a: Seq<Seq<char>>, b: Seq<Seq<char>>)
    ensures
        join_all(join_all(base, a), b) == join_all(base, a + b),
    decreases b.len(),
{
    if b.len() == 0 {
        assert(a + b =~= a);
    } else {
        lemma_join_all_concat(base, a, b.drop_last());
        assert((a + b).drop_last() =~= a + b.drop_last());
        assert((a + b).last() == b.last());
    }
}

/// The components of a path. Doubled slashes and the component `.` do not count.
pub open spec fn components_of(path: Seq<char>) -> Seq<Seq<char>>
    decreases path.len(),
{
    if path.len() == 0 {
        seq![]
    } else {
        match split_once(path, Pattern::Is('/')) {
            Some((first, rest)) => component(first) + components_of(rest),
            None => component(path),
        }
    }
}

/// What stands between two slashes, if it is a component that counts.
pub open spec fn component(text: Seq<char>) -> Seq<Seq<char>> {
    if text.len() == 0 || text == "."@ {
        seq![]
    } else {
        seq![text]
    }
}

/// The components of a path.
pub fn path_components(path: &str) -> (r: Vec<String>)
    ensures
        texts(r@) == components_of(path@),
{
    let mut out: Vec<String> = Vec::new();
    let mut left = path.to_owned();
    assert(texts(out@) + components_of(left@) =~= components_of(path@));
    while !left.as_str().is_empty()
        invariant
            texts(out@) + components_of(left@) == components_of(path@),
        decreases left@.len(),
    {
        let ghost before = texts(out@);
        let ghost was = left@;
        let (first, rest) = match split_at_first(left.as_str(), Pattern::Is('/')) {
            Some((first, rest)) => (first, rest),
            None => (left, String::new()),
        };
        proof {
            lemma_find(was, Pattern::Is('/'));
            assert(rest@.len() < was.len());
            assert(components_of(was) =~= component(first@) + components_of(rest@));
        }
        if !first.as_str().is_empty() && !same_text(first.as_str(), ".") {
            out.push(first);
            assert(texts(out@) =~= before + component(first@));
        } else {
            assert(before + component(first@) =~= before);
        }
        assert(texts(out@) + components_of(rest@) =~= before + components_of(was));
        left = rest;
    }
    assert(texts(out@) + components_of(left@) =~= texts(out@));
    out
}

/// What is found at a path.
pub struct Place {
    /// Does it exist, with the links in it followed?
    pub exists: bool,
    /// What it points to, if it is a link.
    pub link: Option<String>,
}

/// What a [`Place`] says.
pub struct PlaceView {
    pub exists: bool,
    pub link: Option<Seq<char>>,
}

impl View for Place {
    type V = PlaceView;

    open spec fn view(&self) -> PlaceView {
        PlaceView { exists: self.exists, link: opt_text(self.link) }
    }
}

/// What the places of a list say.
pub open spec fn places_view(places: Seq<Place>) -> Seq<PlaceView> {
    Seq::new(places.len(), |k: int| places[k]@)
}

/// Does the search for an existing ancestor of a path stop at the ancestor made
/// of the first `k` components? It does where that ancestor exists, at the root,
/// and at a component `..`, which names no entry that could be put back.
pub open spec fn stops_at(components: Seq<Seq<char>>, places: Seq<PlaceView>, k: int) -> bool {
    places[k].exists || k == 0 || components[k - 1] == ".."@
}

/// How many of the first `n` components make up the longest ancestor at which the
/// search stops.
pub open spec fn stop_of(components: Seq<Seq<char>>, places: Seq<PlaceView>, n: nat) -> nat
    decreases n,
{
    if n == 0 || stops_at(components, places, n as int) {
        n
    } else {
        stop_of(components, places, (n - 1) as nat)
    }
}

/// How many links whose targets are gone are followed in all. More are a circle.
pub const LINK_LIMIT: u32 = 32;

/// The path that a link leads to, in the directory with the path `before`.
pub open spec fn link_path(before: Seq<Seq<char>>, target: Seq<char>) -> Seq<Seq<char>> {
    if target.len() > 0 && target[0] == '/' {
        components_of(target)
    } else {
        before + components_of(target)
    }
}

/// The path that a path leads to whose component `at` is a link.
pub open spec fn followed(
    components: Seq<Seq<char>>,
    at: nat,
    target: Seq<char>,
) -> Seq<Seq<char>> {
    link_path(components.take(at as int), target) + components.skip(at as int + 1)
}

/// What a [`Search`] says.
pub enum SearchView {
    Found(nat),
    Follow(Seq<Seq<char>>),
    Back,
}

/// What the search for a directory that may be gone comes to.
pub enum Search {
    /// So many components make up the longest ancestor that still exists.
    Found(usize),
    /// A link on the way points to what is gone. The search goes on with that path.
    Follow(Vec<String>),
    /// The links lead nowhere. What counts is what still exists of the path that was asked
    /// for.
    Back,
}

impl View for Search {
    type V = SearchView;

    open spec fn view(&self) -> SearchView {
        match *self {
            Search::Found(k) => SearchView::Found(k as nat),
            Search::Follow(components) => SearchView::Follow(texts(components@)),
            Search::Back => SearchView::Back,
        }
    }
}

/// What the search comes to at a path, with that many links followed before.
/// `places[k]` is what is found at the first `k` components. Links lead nowhere where too
/// many of them were followed, and where the path that they lead to goes up, by `..`, from
/// what is gone.
pub open spec fn search_step(
    components: Seq<Seq<char>>,
    places: Seq<PlaceView>,
    hops: nat,
) -> SearchView {
    let stop = stop_of(components, places, components.len());
    if hops > 0 && !places[stop as int].exists {
        SearchView::Back
    } else if stop == components.len() {
        SearchView::Found(stop)
    } else {
        match places[stop as int + 1].link {
            Some(target) => if hops < LINK_LIMIT {
                SearchView::Follow(followed(components, stop, target))
            } else {
                SearchView::Back
            },
            None => SearchView::Found(stop),
        }
    }
}

/// The components in `from..to`.
fn copied(components: &Vec<String>, from: usize, to: usize) -> (r: Vec<String>)
    requires
        from <= to <= components@.len(),
    ensures
        texts(r@) == texts(components@).subrange(from as int, to as int),
{
    let mut out: Vec<String> = Vec::new();
    let ghost all = texts(components@);
    let mut i: usize = from;
    while i < to
        invariant
            all == texts(components@),
            from <= i <= to <= components@.len(),
            texts(out@) == all.subrange(from as int, i as int),
        decreases to - i,
    {
        let ghost before = texts(out@);
        out.push(components[i].clone());
        assert(texts(out@) =~= before.push(all[i as int]));
        i += 1;
        assert(texts(out@) =~= all.subrange(from as int, i as int));
    }
    out
}

/// Finds, for an absolute path given by its components, how many of them make up its longest
/// ancestor that still exists. `places[k]` is what is found at the first `k` components.
pub fn existing_ancestor(components: &Vec<String>, places: &Vec<Place>) -> (r: usize)
    requires
        places@.len() == components@.len() + 1,
    ensures
        r == stop_of(texts(components@), places_view(places@), components@.len()),
        r <= components@.len(),
{
    let ghost all = texts(components@);
    let ghost found = places_view(places@);
    let total = components.len();
    let mut k: usize = total;
    while k > 0 && !places[k].exists && !same_text(components[k - 1].as_str(), "..")
        invariant
            all == texts(components@),
            found == places_view(places@),
            places@.len() == components@.len() + 1,
            total == components@.len(),
            k <= total,
            stop_of(all, found, k as nat) == stop_of(all, found, total as nat),
        decreases k,
    {
        assert(all[k - 1] == components@[k - 1]@);
        assert(found[k as int] == places@[k as int]@);
        k -= 1;
    }
    assert(k > 0 ==> all[k - 1] == components@[k - 1]@);
    assert(found[k as int] == places@[k as int]@);
    k
}

/// Finds, for an absolute path given by its components, how many of them make up
/// its longest ancestor that still exists, or, where a link on the way points to what is
/// gone, the path that it leads to. `places[k]` is what is found at the first `k`
/// components, and `hops` counts the links followed before. Where the links lead nowhere,
/// the search goes back to the path that was asked for.
pub fn absolutize_missing(components: &Vec<String>, places: &Vec<Place>, hops: u32) -> (r: Search)
    requires
        places@.len() == components@.len() + 1,
    ensures
        r@ == search_step(texts(components@), places_view(places@), hops as nat),
        r matches Search::Found(k) ==> k <= components@.len(),
{
    let ghost all = texts(components@);
    let ghost found = places_view(places@);
    let total = components.len();
    let k = existing_ancestor(components, places);
    assert(found[k as int] == places@[k as int]@);
    if hops > 0 && !places[k].exists {
        return Search::Back;
    }
    if k < total {
        assert(found[k + 1] == places@[k + 1]@);
        if let Some(target) = &places[k + 1].link {
            if hops >= LINK_LIMIT {
                return Search::Back;
            }
            let mut next = if starts_with(target.as_str(), "/") {
                Vec::new()
            } else {
                copied(components, 0, k)
            };
            let ghost start = texts(next@);
            let mut middle = path_components(target.as_str());
            let mut end = copied(components, k + 1, total);
            let ghost m = texts(middle@);
            let ghost e = texts(end@);
            next.append(&mut middle);
            assert(texts(next@) =~= start + m);
            next.append(&mut end);
            proof {
                reveal_strlit("/");
                if target@.len() > 0 {
                    assert(target@.subrange(0, 1)[0] == target@[0]);
                    assert(target@[0] == '/' ==> target@.subrange(0, 1) =~= "/"@);
                }
                assert(texts(next@) =~= start + m + e);
                assert(all.subrange(0, k as int) =~= all.take(k as int));
                assert(all.subrange(k + 1, total as int) =~= all.skip(k + 1));
                assert(start + m =~= link_path(all.take(k as int), target@));
                assert(texts(next@) =~= followed(all, k as nat, target@));
            }
            return Search::Follow(next);
        }
    }
    Search::Found(k)
}

/// What is found at a path's ancestors and at the path itself, where `fs` says what is
/// found where.
pub open spec fn looked_up(
    fs: spec_fn(Seq<Seq<char>>) -> PlaceView,
    components: Seq<Seq<char>>,
) -> Seq<PlaceView> {
    Seq::new(components.len() + 1, |k: int| fs(components.take(k)))
}

/// Where the whole search for the path `asked` ends, having come to another path: the path
/// that it ends with, and how many of its components still exist.
pub open spec fn search(
    fs: spec_fn(Seq<Seq<char>>) -> PlaceView,
    asked: Seq<Seq<char>>,
    components: Seq<Seq<char>>,
    hops: nat,
) -> (Seq<Seq<char>>, nat)
    decreases LINK_LIMIT - hops,
{
    match search_step(components, looked_up(fs, components), hops) {
        SearchView::Found(k) => (components, k),
        SearchView::Follow(next) => search(fs, asked, next, hops + 1),
        SearchView::Back => (asked, stop_of(asked, looked_up(fs, asked), asked.len())),
    }
}

/// The path that the whole search for a path comes to, where `resolve` says what an existing
/// path resolves to.
pub open spec fn searched_path(
    fs: spec_fn(Seq<Seq<char>>) -> PlaceView,
    resolve: spec_fn(Seq<Seq<char>>) -> Seq<char>,
    asked: Seq<Seq<char>>,
) -> Seq<char> {
    let (path, k) = search(fs, asked, asked, 0);
    join_all(resolve(path.take(k as int)), path.skip(k as int))
}

/// The search stops at an ancestor, or at the path itself.
pub proof fn lemma_stop_within(components: Seq<Seq<char>>, places: Seq<PlaceView>, n: nat)
    ensures
        stop_of(components, places, n) <= n,
    decreases n,
{
    if n > 0 {
        lemma_stop_within(components, places, (n - 1) as nat);
    }
}

/// Where nothing stops the search before, it stops at the ancestor.
proof fn lemma_stop_of(
    components: Seq<Seq<char>>,
    places: Seq<PlaceView>,
    at: nat,
    n: nat,
)
    requires
        at <= n,
        stops_at(components, places, at as int),
        forall|k: int| at < k <= n ==> !#[trigger] stops_at(components, places, k),
    ensures
        stop_of(components, places, n) == at,
    decreases n,
{
    if n > at {
        assert(!stops_at(components, places, n as int));
        lemma_stop_of(components, places, at, (n - 1) as nat);
    }
}

/// A link whose target is gone leads to the target: the search for a path through such a
/// link ends where the search for the target's path, with what stands behind the link,
/// ends. `before` is the path of the directory that holds the link.
pub proof fn law_gone_link_leads_to_its_target(
    fs: spec_fn(Seq<Seq<char>>) -> PlaceView,
    asked: Seq<Seq<char>>,
    before: Seq<Seq<char>>,
    name: Seq<char>,
    tail: Seq<Seq<char>>,
    target: Seq<char>,
    hops: nat,
)
    requires
        hops < LINK_LIMIT,
        fs(before).exists,
        fs(before.push(name)).link == Some(target),
        forall|k: int|
            before.len() < k <= before.len() + 1 + tail.len() ==> !#[trigger] stops_at(
                before.push(name) + tail,
                looked_up(fs, before.push(name) + tail),
                k,
            ),
    ensures
        search(fs, asked, before.push(name) + tail, hops) == search(
            fs,
            asked,
            link_path(before, target) + tail,
            hops + 1,
        ),
{
    let all = before.push(name) + tail;
    let places = looked_up(fs, all);
    let at = before.len();
    assert(all.take(at as int) =~= before);
    assert(all.take(at as int + 1) =~= before.push(name));
    assert(all.skip(at as int + 1) =~= tail);
    assert(places[at as int] == fs(before));
    lemma_stop_of(all, places, at, all.len());
    assert(places[at as int + 1] == fs(before.push(name)));
    assert(search_step(all, places, hops) == SearchView::Follow(followed(all, at, target)));
}

/// The search ends with something that exists, or with the path that was asked for: what is
/// followed on the way is given up where it leads nowhere.
pub proof fn law_search_comes_back(
    fs: spec_fn(Seq<Seq<char>>) -> PlaceView,
    asked: Seq<Seq<char>>,
)
    ensures
        ({
            let (path, k) = search(fs, asked, asked, 0);
            &&& k <= path.len()
            &&& k == stop_of(path, looked_up(fs, path), path.len())
            &&& path == asked || fs(path.take(k as int)).exists && (k < path.len() ==> fs(
                path.take(k as int + 1),
            ).link is None)
        }),
{
    lemma_search_ends(fs, asked, asked, 0);
}

/// How the search ends from a path that it has come to.
proof fn lemma_search_ends(
    fs: spec_fn(Seq<Seq<char>>) -> PlaceView,
    asked: Seq<Seq<char>>,
    components: Seq<Seq<char>>,
    hops: nat,
)
    requires
        hops == 0 ==> components == asked,
    ensures
        ({
            let (path, k) = search(fs, asked, components, hops);
            &&& k <= path.len()
            &&& k == stop_of(path, looked_up(fs, path), path.len())
            &&& path == asked || fs(path.take(k as int)).exists && (k < path.len() ==> fs(
                path.take(k as int + 1),
            ).link is None)
        }),
    decreases LINK_LIMIT - hops,
{
    let places = looked_up(fs, components);
    let stop = stop_of(components, places, components.len());
    lemma_stop_within(components, places, components.len());
    lemma_stop_within(asked, looked_up(fs, asked), asked.len());
    assert(places[stop as int] == fs(components.take(stop as int)));
    if stop < components.len() {
        assert(places[stop as int + 1] == fs(components.take(stop as int + 1)));
    }
    match search_step(components, places, hops) {
        SearchView::Follow(next) => {
            lemma_search_ends(fs, asked, next, hops + 1);
        },
        _ => {},
    }
}

/// Puts the missing components back behind the resolved ancestor.
pub fn reattach(resolved: &str, components: &Vec<String>, from: usize) -> (r: String)
    requires
        from <= components@.len(),
    ensures
        r@ == join_all(resolved@, texts(components@).skip(from as int)),
{
    let mut out = resolved.to_owned();
    let ghost tail = texts(components@).skip(from as int);
    let mut i: usize = from;
    while i < components.len()
        invariant
            from <= i <= components@.len(),
            tail == texts(components@).skip(from as int),
            out@ == join_all(resolved@, tail.take(i - from)),
        decreases components@.len() - i,
    {
        out = join_path(out.as_str(), components[i].as_str());
        proof {
            assert(tail.take(i + 1 - from).drop_last() =~= tail.take(i - from));
            assert(tail.take(i + 1 - from).last() == components@[i as int]@);
        }
        i += 1;
    }
    assert(tail.take(i - from) =~= tail);
    out
}

/// The name at the end of a path: what stands behind its last slash, whatever stands before,
/// and slashes and the component `.` behind it do not count; the component `..` is no name.
pub proof fn law_file_name(dir: Seq<char>, name: Seq<char>)
    requires
        name.len() > 0,
        !any_of(name, Pattern::Is('/')),
        name != "."@,
        name != ".."@,
    ensures
        file_name(name) == Some(name),
        file_name(dir + seq!['/'] + name) == Some(name),
        file_name(dir + seq!['/']) == file_name(dir),
        file_name(dir + seq!['/', '.']) == file_name(dir),
        file_name(dir + seq!['/', '.', '.']) is None,
        file_name(seq!['.']) is None,
        file_name(seq!['.', '.']) is None,
        file_name(Seq::<char>::empty()) is None,
{
    reveal_strlit(".");
    reveal_strlit("..");
    let n = dir.len() as int;
    assert forall|k: int| -1 < k < name.len() implies #[trigger] name[k] != '/' by {
        assert(!Pattern::Is('/').covers(name[k]));
    }
    lemma_last_slash_is(name, -1);
    assert(name.skip(0) =~= name);
    let whole = dir + seq!['/'] + name;
    assert forall|k: int| n < k < whole.len() implies #[trigger] whole[k] != '/' by {
        assert(whole[k] == name[k - n - 1]);
    }
    lemma_last_slash_is(whole, n);
    assert(whole.skip(n + 1) =~= name);
    let open = dir + seq!['/'];
    lemma_last_slash_is(open, n);
    assert(open.skip(n + 1) =~= seq![]);
    assert(open.take(n) =~= dir);
    let here = dir + seq!['/', '.'];
    lemma_last_slash_is(here, n);
    assert(here.skip(n + 1) =~= "."@);
    assert(here.take(n) =~= dir);
    let up = dir + seq!['/', '.', '.'];
    lemma_last_slash_is(up, n);
    assert(up.skip(n + 1) =~= ".."@);
    lemma_last_slash_is(seq!['.'], -1);
    assert(seq!['.'].skip(0) =~= "."@);
    lemma_last_slash_is(seq!['.', '.'], -1);
    assert(seq!['.', '.'].skip(0) =~= ".."@);
}

/// A name that is put behind a path is parted from it by one slash; an absolute path takes
/// the other's place.
pub proof fn law_join(base: Seq<char>, name: Seq<char>)
    ensures
        name.len() > 0 && name[0] == '/' ==> join(base, name) == name,
        !(name.len() > 0 && name[0] == '/') ==> {
            &&& base.len() > 0 && base.last() != '/' ==> join(base, name) == base + seq!['/']
                + name
            &&& base.len() > 0 && base.last() == '/' ==> join(base, name) == base + name
            &&& base.len() == 0 ==> join(base, name) == name
        },
{
    reveal_strlit("/");
    assert("/"@ =~= seq!['/']);
    if base.len() == 0 {
        assert(base + name =~= name);
    }
}

/// Names are put behind a path one after the other, none left out.
pub proof fn law_join_all(base: Seq<char>, names: Seq<Seq<char>>, name: Seq<char>)
    ensures
        join_all(base, Seq::<Seq<char>>::empty()) == base,
        join_all(base, names.push(name)) == join(join_all(base, names), name),
{
    assert(names.push(name).drop_last() =~= names);
}

/// The components of a path are those before a slash and those behind it; between slashes
/// stands one, unless it is empty or `.`.
pub proof fn law_components(a: Seq<char>, b: Seq<char>, name: Seq<char>)
    requires
        !any_of(name, Pattern::Is('/')),
    ensures
        components_of(a + seq!['/'] + b) == components_of(a) + components_of(b),
        name.len() > 0 && name != "."@ ==> components_of(name) == seq![name],
        name.len() == 0 || name == "."@ ==> components_of(name) == Seq::<Seq<char>>::empty(),
    decreases a.len(),
{
    let p = Pattern::Is('/');
    law_split(name, '/', b, p);
    let s = a + seq!['/'] + b;
    lemma_find(a, p);
    let at = find(a, p) as int;
    if at < a.len() {
        let first = a.take(at);
        let rest = a.skip(at + 1);
        assert(!any_of(first, p)) by {
            assert forall|k: int| 0 <= k < first.len() implies !p.covers(#[trigger] first[k]) by {
                assert(first[k] == a[k]);
            }
        }
        law_components(rest, b, name);
        law_split(first, '/', rest, p);
        assert(a =~= first + seq!['/'] + rest);
        law_split(first, '/', rest + seq!['/'] + b, p);
        assert(s =~= first + seq!['/'] + (rest + seq!['/'] + b));
        assert(components_of(s) =~= component(first) + (components_of(rest) + components_of(b)));
        assert(components_of(s) =~= components_of(a) + components_of(b));
    } else {
        assert(!any_of(a, p)) by {
            assert forall|k: int| 0 <= k < a.len() implies !p.covers(#[trigger] a[k]) by {}
        }
        law_split(a, '/', b, p);
        if a.len() == 0 {
            assert(component(a) =~= components_of(a));
        }
        assert(components_of(s) =~= components_of(a) + components_of(b));
    }
}

/// The search stops at the longest ancestor that exists: it exists, or it is the root or ends
/// in `..`, and none that is longer does.
pub proof fn law_longest_ancestor(components: Seq<Seq<char>>, places: Seq<PlaceView>, n: nat)
    ensures
        ({
            let k = stop_of(components, places, n) as int;
            &&& 0 <= k <= n
            &&& places[k].exists || k == 0 || components[k - 1] == ".."@
            &&& forall|j: int|
                k < j <= n ==> !(#[trigger] places[j]).exists && components[j - 1] != ".."@
        }),
    decreases n,
{
    if n > 0 && !stops_at(components, places, n as int) {
        law_longest_ancestor(components, places, (n - 1) as nat);
    }
}

/// A path that was asked for is found where it is, at its longest ancestor, unless the next
/// component is a link to what is gone.
pub proof fn law_search_without_links(
    fs: spec_fn(Seq<Seq<char>>) -> PlaceView,
    asked: Seq<Seq<char>>,
)
    ensures
        ({
            let k = stop_of(asked, looked_up(fs, asked), asked.len());
            k == asked.len() || fs(asked.take(k as int + 1)).link is None ==> search(
                fs,
                asked,
                asked,
                0,
            ) == (asked, k)
        }),
{
    let places = looked_up(fs, asked);
    let k = stop_of(asked, places, asked.len());
    lemma_stop_within(asked, places, asked.len());
    if k < asked.len() {
        assert(places[k as int + 1] == fs(asked.take(k as int + 1)));
    }
}

/// What is found, and what the search comes to, says what it was made with; a link leads on
/// from the directory that holds it, or from the root; and the thirty-third is one too many.
pub proof fn law_links(
    place: Place,
    list: Vec<String>,
    k: usize,
    before: Seq<Seq<char>>,
    target: Seq<char>,
    places: Seq<PlaceView>,
    components: Seq<Seq<char>>,
    hops: nat,
)
    ensures
        place@.exists == place.exists,
        place.link is None <==> place@.link is None,
        place.link matches Some(to) ==> place@.link == Some(to@),
        Search::Found(k)@ == SearchView::Found(k as nat),
        Search::Back@ == SearchView::Back,
        Search::Follow(list)@ is Follow,
        Search::Follow(list)@->Follow_0.len() == list@.len(),
        forall|i: int|
            0 <= i < list@.len() ==> #[trigger] Search::Follow(list)@->Follow_0[i] == list@[i]@,
        target.len() > 0 && target[0] == '/' ==> link_path(before, target) == components_of(target),
        !(target.len() > 0 && target[0] == '/') ==> link_path(before, target) == before
            + components_of(target),
        search_step(components, places, hops) is Follow ==> hops < 32,
        ({
            let stop = stop_of(components, places, components.len());
            stop < components.len() && places[stop as int].exists && places[stop as int + 1].link
                is Some && hops < 32 ==> search_step(components, places, hops)
                == SearchView::Follow(
                link_path(components.take(stop as int), places[stop as int + 1].link->0)
                    + components.skip(stop as int + 1),
            )
        }),
{
}

} // verus!
