//! Paths as text, taken apart by their components.
use vstd::prelude::*;

use crate::text::{begins, chars_of, copy_range, first_of, join, join_of, lemma_texts_push, same, scan, starts_with, text_of, texts};

verus! {

// ---------------------------------------------------------------------------
// Specifications
// ---------------------------------------------------------------------------

/// What stands between the slashes of a path.
pub open spec fn segments_of(path: Seq<char>) -> Seq<Seq<char>>
    decreases path.len(),
{
    let n = first_of(path, '/');
    if 0 <= n < path.len() {
        seq![path.take(n)] + segments_of(path.skip(n + 1))
    } else {
        seq![path]
    }
}

/// The segments that name something: neither empty nor a single dot.
pub open spec fn named(segments: Seq<Seq<char>>) -> Seq<Seq<char>>
    decreases segments.len(),
{
    if segments.len() == 0 {
        Seq::empty()
    } else if segments.last().len() == 0 || segments.last() == "."@ {
        named(segments.drop_last())
    } else {
        named(segments.drop_last()).push(segments.last())
    }
}

/// The path begins at the root.
pub open spec fn is_absolute_of(path: Seq<char>) -> bool {
    begins(path, "/"@)
}

/// The components of a path: the root of an absolute path, a dot at the beginning of
/// a relative one, then every segment that names something.
pub open spec fn components_of(path: Seq<char>) -> Seq<Seq<char>> {
    let named = named(segments_of(path));
    if is_absolute_of(path) {
        seq!["/"@] + named
    } else if segments_of(path)[0] == "."@ {
        seq!["."@] + named
    } else {
        named
    }
}

/// The components of `base` are the first ones of `path`.
pub open spec fn lies_in(path: Seq<char>, base: Seq<char>) -> bool {
    components_of(base).is_prefix_of(components_of(path))
}

/// `part` taken from `base` on: it replaces `base` where it is absolute.
pub open spec fn join_path_of(base: Seq<char>, part: Seq<char>) -> Seq<char> {
    if is_absolute_of(part) {
        part
    } else if base.len() == 0 || base.last() == '/' {
        base + part
    } else {
        base + "/"@ + part
    }
}

/// `path` as seen from `base`, where it lies in it.
pub open spec fn relative_of(path: Seq<char>, base: Seq<char>) -> Option<Seq<char>> {
    if lies_in(path, base) {
        Some(join_of(components_of(path).skip(components_of(base).len() as int), "/"@))
    } else {
        None
    }
}

/// The last component of a path, where it is a name.
pub open spec fn file_name_of(path: Seq<char>) -> Option<Seq<char>> {
    let c = components_of(path);
    if c.len() == 0 || c.last() == "/"@ || c.last() == "."@ || c.last() == ".."@ {
        None
    } else {
        Some(c.last())
    }
}

/// The path that is made of components.
pub open spec fn path_of(components: Seq<Seq<char>>) -> Seq<char> {
    if components.len() > 0 && components[0] == "/"@ {
        "/"@ + join_of(components.skip(1), "/"@)
    } else {
        join_of(components, "/"@)
    }
}

/// The path without its last component.
pub open spec fn parent_of(path: Seq<char>) -> Seq<char> {
    path_of(components_of(path).drop_last())
}

/// The text can stand as a component behind others: a name, or two dots.
pub open spec fn is_component(s: Seq<char>) -> bool {
    s.len() > 0 && s != "."@ && !s.contains('/')
}

/// The text is a name of something in a directory.
pub open spec fn is_plain_name(s: Seq<char>) -> bool {
    is_component(s) && s != ".."@
}

/// The path leads straight to its end: no component is a dot or two.
pub open spec fn is_straight(path: Seq<char>) -> bool {
    forall|i: int|
        0 <= i < components_of(path).len() ==> #[trigger] components_of(path)[i] != "."@ && components_of(path)[i]
            != ".."@
}

/// The position of the last dot of a text, or -1.
pub open spec fn last_dot(s: Seq<char>) -> int
    decreases s.len(),
{
    if s.len() == 0 {
        -1
    } else if s.last() == '.' {
        s.len() - 1
    } else {
        last_dot(s.drop_last())
    }
}

/// What follows the last dot of a path's file name, unless the name begins with
/// that dot or has none.
pub open spec fn extension_of(path: Seq<char>) -> Option<Seq<char>> {
    match file_name_of(path) {
        None => None,
        Some(name) => if last_dot(name) <= 0 {
            None
        } else {
            Some(name.skip(last_dot(name) + 1))
        },
    }
}

// ---------------------------------------------------------------------------
// Functions
// ---------------------------------------------------------------------------

/// What stands between the slashes of a path.
pub fn segments(path: &str) -> (r: Vec<String>)
    ensures
        texts(r@) == segments_of(path@),
        r@.len() >= 1,
{
    let v = chars_of(path);
    let n = v.len();
    let mut out: Vec<String> = Vec::new();
    let mut pos: usize = 0;
    assert(v@.skip(0) =~= v@);
    assert(texts(out@) + segments_of(v@) =~= segments_of(v@));
    loop
        invariant_except_break
            pos <= n == v@.len(),
            v@ == path@,
            texts(out@) + segments_of(v@.skip(pos as int)) == segments_of(path@),
        ensures
            texts(out@) == segments_of(path@),
            out@.len() >= 1,
        decreases n - pos,
    {
        let end = scan(&v, '/', pos);
        let ghost rest = v@.skip(pos as int);
        let ghost before = out@;
        let part = text_of(&v, pos, end);
        proof { lemma_texts_push(out@, part); }
        if end < n {
            proof {
                assert(part@ =~= rest.take(end - pos));
                assert(rest.skip(end - pos + 1) =~= v@.skip(end + 1));
            }
            out.push(part);
            assert(texts(out@) + segments_of(v@.skip(end + 1)) =~= texts(before) + segments_of(rest));
            pos = end + 1;
        } else {
            assert(part@ =~= rest);
            out.push(part);
            assert(texts(out@) =~= texts(before) + segments_of(rest));
            break;
        }
    }
    out
}

/// Whether a path begins at the root.
pub fn is_absolute(path: &str) -> (r: bool)
    ensures
        r == is_absolute_of(path@),
{
    starts_with(path, "/")
}

/// The components of a path.
pub fn components(path: &str) -> (r: Vec<String>)
    ensures
        texts(r@) == components_of(path@),
{
    let segments = segments(path);
    let ghost all = texts(segments@);
    let mut out: Vec<String> = Vec::new();
    if is_absolute(path) {
        out.push(String::from_str("/"));
    } else if same(segments[0].as_str(), ".") {
        out.push(String::from_str("."));
    }
    let ghost head = texts(out@);
    proof {
        if is_absolute_of(path@) {
            assert(head =~= seq!["/"@]);
        } else if all[0] == "."@ {
            assert(head =~= seq!["."@]);
        } else {
            assert(head =~= Seq::empty());
        }
        assert(named(all.take(0)) =~= Seq::empty());
        assert(head + named(all.take(0)) =~= head);
    }
    for i in 0..segments.len()
        invariant
            all == texts(segments@),
            texts(out@) == head + named(all.take(i as int)),
    {
        proof {
            assert(all.take(i + 1).drop_last() =~= all.take(i as int));
            assert(all.take(i + 1).last() == segments@[i as int]@);
        }
        let s = segments[i].as_str();
        if !s.is_empty() && !same(s, ".") {
            let new = String::from_str(s);
            proof { lemma_texts_push(out@, new); }
            out.push(new);
            assert(texts(out@) =~= head + named(all.take(i + 1)));
        }
    }
    proof {
        assert(all.take(all.len() as int) =~= all);
        assert(texts(out@) =~= components_of(path@));
    }
    out
}

/// Whether the components of `base` are the first ones of `path`.
pub fn lies_within(path: &str, base: &str) -> (r: bool)
    ensures
        r == lies_in(path@, base@),
{
    let p = components(path);
    let b = components(base);
    if b.len() > p.len() {
        return false;
    }
    for i in 0..b.len()
        invariant
            b@.len() <= p@.len(),
            texts(p@) == components_of(path@),
            texts(b@) == components_of(base@),
            forall|k: int| 0 <= k < i ==> b@[k]@ == p@[k]@,
    {
        if !same(b[i].as_str(), p[i].as_str()) {
            assert(texts(b@)[i as int] != texts(p@).subrange(0, b@.len() as int)[i as int]);
            return false;
        }
    }
    assert(texts(b@) =~= texts(p@).subrange(0, b@.len() as int));
    true
}

/// Whether two paths have the same components.
pub fn same_path(a: &str, b: &str) -> (r: bool)
    ensures
        r == (components_of(a@) == components_of(b@)),
{
    let x = components(a);
    let y = components(b);
    if x.len() != y.len() {
        assert(texts(x@).len() != texts(y@).len());
        return false;
    }
    for i in 0..x.len()
        invariant
            x@.len() == y@.len(),
            texts(x@) == components_of(a@),
            texts(y@) == components_of(b@),
            forall|k: int| 0 <= k < i ==> x@[k]@ == y@[k]@,
    {
        if !same(x[i].as_str(), y[i].as_str()) {
            assert(texts(x@)[i as int] != texts(y@)[i as int]);
            return false;
        }
    }
    assert(texts(x@) =~= texts(y@));
    true
}

/// `part` taken from `base` on.
pub fn join_path(base: &str, part: &str) -> (r: String)
    ensures
        r@ == join_path_of(base@, part@),
{
    if is_absolute(part) {
        return String::from_str(part);
    }
    let v = chars_of(base);
    let mut out = String::from_str(base);
    if v.len() > 0 && v[v.len() - 1] != '/' {
        out.append("/");
    }
    out.append(part);
    out
}

/// `path` as seen from `base`, where it lies in it.
pub fn relative(path: &str, base: &str) -> (r: Option<String>)
    ensures
        match r {
            Some(s) => relative_of(path@, base@) == Some(s@),
            None => relative_of(path@, base@) is None,
        },
{
    if !lies_within(path, base) {
        return None;
    }
    let p = components(path);
    let b = components(base);
    assert(texts(b@).len() <= texts(p@).len());
    let rest = copy_range(&p, b.len(), p.len());
    assert(texts(rest@) =~= texts(p@).skip(b@.len() as int));
    Some(join(&rest, "/"))
}

/// The last component of a path, where it is a name.
pub fn file_name(path: &str) -> (r: Option<String>)
    ensures
        match r {
            Some(s) => file_name_of(path@) == Some(s@),
            None => file_name_of(path@) is None,
        },
{
    let c = components(path);
    let n = c.len();
    if n == 0 {
        return None;
    }
    assert(texts(c@).last() == c@[n - 1]@);
    let last = c[n - 1].as_str();
    if same(last, "/") || same(last, ".") || same(last, "..") {
        None
    } else {
        Some(String::from_str(last))
    }
}

/// The path without its last component, where it has one.
pub fn parent(path: &str) -> (r: String)
    requires
        components_of(path@).len() > 0,
    ensures
        r@ == parent_of(path@),
{
    let c = components(path);
    let ghost all = texts(c@);
    assert(all.len() == c@.len());
    let n = c.len();
    let ghost front = all.drop_last();
    if n > 1 && same(c[0].as_str(), "/") {
        let rest = copy_range(&c, 1, n - 1);
        assert(all[0] == c@[0]@);
        assert(texts(rest@) =~= front.skip(1));
        let mut out = String::from_str("/");
        out.append(join(&rest, "/").as_str());
        out
    } else {
        let rest = copy_range(&c, 0, n - 1);
        assert(texts(rest@) =~= front);
        assert(n > 1 ==> all[0] == c@[0]@);
        join(&rest, "/")
    }
}

/// What follows the last dot of a path's file name, where it has an extension.
pub fn extension(path: &str) -> (r: Option<String>)
    ensures
        match r {
            Some(s) => extension_of(path@) == Some(s@),
            None => extension_of(path@) is None,
        },
{
    match file_name(path) {
        None => None,
        Some(name) => {
            let v = chars_of(name.as_str());
            let n = v.len();
            let mut i: usize = n;
            assert(v@.take(n as int) =~= v@);
            while i > 0 && v[i - 1] != '.'
                invariant
                    i <= n == v@.len(),
                    last_dot(v@) == last_dot(v@.take(i as int)),
                decreases i,
            {
                assert(v@.take(i as int).drop_last() =~= v@.take(i - 1));
                i = i - 1;
            }
            if i <= 1 {
                None
            } else {
                assert(v@.subrange(i as int, n as int) =~= v@.skip(i as int));
                Some(text_of(&v, i, n))
            }
        },
    }
}

// ---------------------------------------------------------------------------
// Components of paths that are put together
// ---------------------------------------------------------------------------

/// The first slash of a text with a slash put into it.
proof fn lemma_first_slash(a: Seq<char>, b: Seq<char>)
    ensures
        0 <= first_of(a, '/') <= a.len(),
        first_of(a + "/"@ + b, '/') == first_of(a, '/'),
    decreases a.len(),
{
    reveal_strlit("/");
    let s = a + "/"@ + b;
    if a.len() > 0 && a[0] != '/' {
        assert(s[0] == a[0]);
        assert(s.skip(1) =~= a.skip(1) + "/"@ + b);
        lemma_first_slash(a.skip(1), b);
    } else {
        assert(s[0] == '/');
    }
}

/// The segments on both sides of a slash.
proof fn lemma_segments_add(a: Seq<char>, b: Seq<char>)
    ensures
        segments_of(a + "/"@ + b) == segments_of(a) + segments_of(b),
    decreases a.len(),
{
    reveal_strlit("/");
    let s = a + "/"@ + b;
    let n = first_of(a, '/');
    lemma_first_slash(a, b);
    if n < a.len() {
        let rest = a.skip(n + 1);
        lemma_segments_add(rest, b);
        assert(s.skip(n + 1) =~= rest + "/"@ + b);
        assert(s.take(n) =~= a.take(n));
        assert(segments_of(s) =~= segments_of(a) + segments_of(b));
    } else {
        assert(s.skip(n + 1) =~= b);
        assert(s.take(n) =~= a);
        assert(segments_of(s) =~= segments_of(a) + segments_of(b));
    }
}

/// A text without a slash is its only segment.
proof fn lemma_one_segment(s: Seq<char>)
    requires
        !s.contains('/'),
    ensures
        first_of(s, '/') == s.len(),
        segments_of(s) == seq![s],
    decreases s.len(),
{
    if s.len() > 0 {
        assert(s[0] != '/');
        assert(!s.skip(1).contains('/')) by {
            if s.skip(1).contains('/') {
                let i = choose|i: int| 0 <= i < s.skip(1).len() && s.skip(1)[i] == '/';
                assert(s[i + 1] == '/');
            }
        }
        lemma_one_segment(s.skip(1));
    }
}

/// No segment holds a slash.
proof fn lemma_segments_hold_no_slash(path: Seq<char>)
    ensures
        forall|i: int| 0 <= i < segments_of(path).len() ==> !(#[trigger] segments_of(path)[i]).contains('/'),
        segments_of(path).len() >= 1,
    decreases path.len(),
{
    let n = first_of(path, '/');
    lemma_first_is_first(path);
    if 0 <= n < path.len() {
        lemma_segments_hold_no_slash(path.skip(n + 1));
        let rest = segments_of(path.skip(n + 1));
        let all = segments_of(path);
        assert forall|i: int| 0 <= i < all.len() implies !(#[trigger] all[i]).contains('/') by {
            if i > 0 {
                assert(all[i] == rest[i - 1]);
            }
        }
    } else {
        assert(path.take(n) =~= path);
    }
}

/// There is no slash before the first one.
proof fn lemma_first_is_first(s: Seq<char>)
    ensures
        0 <= first_of(s, '/') <= s.len(),
        !s.take(first_of(s, '/')).contains('/'),
    decreases s.len(),
{
    if s.len() > 0 && s[0] != '/' {
        lemma_first_is_first(s.skip(1));
        let n = first_of(s.skip(1), '/');
        let t = s.take(n + 1);
        assert forall|i: int| 0 <= i < t.len() implies #[trigger] t[i] != '/' by {
            if i > 0 {
                assert(s.skip(1).take(n)[i - 1] == s[i]);
            }
        }
    }
}

/// An empty segment names nothing.
proof fn lemma_empty_names_nothing()
    ensures
        named(seq![Seq::<char>::empty()]) == Seq::<Seq<char>>::empty(),
{
    let s = seq![Seq::<char>::empty()];
    assert(s.last().len() == 0);
    assert(s.drop_last() =~= Seq::empty());
    assert(named(s.drop_last()) == Seq::<Seq<char>>::empty());
}

/// The names of two lists of segments.
proof fn lemma_named_add(a: Seq<Seq<char>>, b: Seq<Seq<char>>)
    ensures
        named(a + b) == named(a) + named(b),
    decreases b.len(),
{
    if b.len() == 0 {
        assert(a + b =~= a);
        assert(named(a) + named(b) =~= named(a));
    } else {
        lemma_named_add(a, b.drop_last());
        assert((a + b).drop_last() =~= a + b.drop_last());
        assert((a + b).last() == b.last());
        assert(named(a + b) =~= named(a) + named(b));
    }
}

/// Every name among segments is one of them.
proof fn lemma_named_are_plain(segments: Seq<Seq<char>>)
    requires
        forall|i: int| 0 <= i < segments.len() ==> !(#[trigger] segments[i]).contains('/'),
    ensures
        forall|i: int| 0 <= i < named(segments).len() ==> is_component(#[trigger] named(segments)[i]),
    decreases segments.len(),
{
    if segments.len() > 0 {
        let front = segments.drop_last();
        assert forall|i: int| 0 <= i < front.len() implies !(#[trigger] front[i]).contains('/') by {
            assert(front[i] == segments[i]);
        }
        lemma_named_are_plain(front);
        assert(!segments[segments.len() - 1].contains('/'));
        assert forall|i: int| 0 <= i < named(segments).len() implies is_component(#[trigger] named(segments)[i]) by {
            if i < named(front).len() {
                assert(named(segments)[i] == named(front)[i]);
            }
        }
    }
}

/// Names put together are the segments of what comes of it.
proof fn lemma_join_names(names: Seq<Seq<char>>)
    requires
        names.len() > 0,
        forall|i: int| 0 <= i < names.len() ==> !(#[trigger] names[i]).contains('/'),
    ensures
        segments_of(join_of(names, "/"@)) == names,
    decreases names.len(),
{
    lemma_one_segment(names[names.len() - 1]);
    if names.len() > 1 {
        let front = names.drop_last();
        assert forall|i: int| 0 <= i < front.len() implies !(#[trigger] front[i]).contains('/') by {
            assert(front[i] == names[i]);
        }
        lemma_join_names(front);
        lemma_segments_add(join_of(front, "/"@), names.last());
        assert(segments_of(join_of(names, "/"@)) =~= names);
    } else {
        assert(seq![names[0]] =~= names);
    }
}

/// All names, and two dots, are named.
proof fn lemma_named_names(names: Seq<Seq<char>>)
    requires
        forall|i: int| 0 <= i < names.len() ==> is_component(#[trigger] names[i]),
    ensures
        named(names) == names,
    decreases names.len(),
{
    if names.len() > 0 {
        let front = names.drop_last();
        assert forall|i: int| 0 <= i < front.len() implies is_component(#[trigger] front[i]) by {
            assert(front[i] == names[i]);
        }
        lemma_named_names(front);
        assert(is_component(names[names.len() - 1]));
        assert(named(names) =~= names);
    }
}

/// The components of an absolute path that is made of names.
proof fn lemma_absolute_path_of(names: Seq<Seq<char>>)
    requires
        forall|i: int| 0 <= i < names.len() ==> is_component(#[trigger] names[i]),
    ensures
        components_of(path_of(seq!["/"@] + names)) == seq!["/"@] + names,
{
    reveal_strlit("/");
    let all = seq!["/"@] + names;
    let path = path_of(all);
    assert(all.skip(1) =~= names);
    assert(path == "/"@ + join_of(names, "/"@));
    assert(path.subrange(0, 1) =~= "/"@);
    assert(is_absolute_of(path));
    let none = Seq::<char>::empty();
    assert(path =~= none + "/"@ + join_of(names, "/"@));
    lemma_segments_add(none, join_of(names, "/"@));
    lemma_one_segment(none);
    lemma_named_add(seq![none], segments_of(join_of(names, "/"@)));
    lemma_empty_names_nothing();
    lemma_named_names(names);
    if names.len() > 0 {
        lemma_join_names(names);
    } else {
        lemma_one_segment(join_of(names, "/"@));
        assert(named(seq![none]) =~= names);
        assert(join_of(names, "/"@) =~= none);
    }
    assert(components_of(path) =~= all);
}

// ---------------------------------------------------------------------------
// Laws
// ---------------------------------------------------------------------------

/// The components of an absolute path are the root, and names or two dots behind it.
pub proof fn law_absolute_components(path: Seq<char>)
    requires
        is_absolute_of(path),
    ensures
        components_of(path).len() > 0,
        components_of(path)[0] == "/"@,
        forall|i: int| 0 < i < components_of(path).len() ==> is_component(#[trigger] components_of(path)[i]),
{
    lemma_segments_hold_no_slash(path);
    lemma_named_are_plain(segments_of(path));
    let names = named(segments_of(path));
    let c = components_of(path);
    assert forall|i: int| 0 < i < c.len() implies is_component(#[trigger] c[i]) by {
        assert(c[i] == names[i - 1]);
    }
}

/// The parent of an absolute path other than the root has its components but for the
/// last one.
pub proof fn law_parent_drops_last_component(path: Seq<char>)
    requires
        is_absolute_of(path),
        components_of(path).len() > 1,
    ensures
        is_absolute_of(parent_of(path)),
        components_of(parent_of(path)) == components_of(path).drop_last(),
{
    law_absolute_components(path);
    let names = named(segments_of(path));
    let front = names.drop_last();
    assert(components_of(path).drop_last() =~= seq!["/"@] + front);
    assert forall|i: int| 0 <= i < front.len() implies is_component(#[trigger] front[i]) by {
        assert(front[i] == components_of(path)[i + 1]);
    }
    lemma_absolute_path_of(front);
    reveal_strlit("/");
    let p = parent_of(path);
    assert(p.subrange(0, 1) =~= "/"@);
}

/// A name, or two dots, behind an absolute path becomes its last component.
pub proof fn law_name_becomes_last_component(base: Seq<char>, name: Seq<char>)
    requires
        is_absolute_of(base),
        is_component(name),
    ensures
        is_absolute_of(join_path_of(base, name)),
        components_of(join_path_of(base, name)) == components_of(base).push(name),
        lies_in(join_path_of(base, name), base),
{
    reveal_strlit("/");
    let path = join_path_of(base, name);
    assert(base.subrange(0, 1)[0] == '/');
    assert(base[0] == '/');
    assert(!is_absolute_of(name)) by {
        if is_absolute_of(name) {
            assert(name.subrange(0, 1)[0] == '/');
            assert(name[0] == '/');
        }
    }
    lemma_one_segment(name);
    lemma_named_names(seq![name]);
    assert(path[0] == '/');
    assert(path.subrange(0, 1) =~= "/"@);
    if base.last() == '/' {
        let front = base.drop_last();
        assert(path =~= front + "/"@ + name);
        lemma_segments_add(front, name);
        let none = Seq::<char>::empty();
        assert(base =~= front + "/"@ + none);
        lemma_segments_add(front, none);
        lemma_one_segment(none);
        lemma_named_add(segments_of(front), seq![none]);
        lemma_named_add(segments_of(front), seq![name]);
        lemma_empty_names_nothing();
        assert(named(segments_of(base)) =~= named(segments_of(front)));
    } else {
        lemma_segments_add(base, name);
        lemma_named_add(segments_of(base), seq![name]);
    }
    assert(components_of(path) =~= components_of(base).push(name));
    assert(components_of(path).subrange(0, components_of(base).len() as int) =~= components_of(base));
}

/// The last component of a path that is a name is a plain one.
pub proof fn law_file_name_is_plain(path: Seq<char>)
    ensures
        file_name_of(path) matches Some(name) ==> is_plain_name(name),
{
    lemma_segments_hold_no_slash(path);
    lemma_named_are_plain(segments_of(path));
    let names = named(segments_of(path));
    let c = components_of(path);
    if file_name_of(path) is Some {
        assert(names.len() > 0);
        assert(c.last() == names[names.len() - 1]);
    }
}

/// A path lies in itself, and what lies in a path that lies in another lies in that
/// other too.
pub proof fn law_containment_is_transitive(a: Seq<char>, b: Seq<char>, c: Seq<char>)
    ensures
        lies_in(a, a),
        lies_in(a, b) && lies_in(b, c) ==> lies_in(a, c),
{
    assert(components_of(a).subrange(0, components_of(a).len() as int) =~= components_of(a));
    if lies_in(a, b) && lies_in(b, c) {
        let n = components_of(c).len() as int;
        assert(components_of(b).subrange(0, n) =~= components_of(a).subrange(0, n));
    }
}

/// The segments of a path are told apart by its slashes: joined by slashes they are the
/// path, and none of them holds one.
pub proof fn law_segments_make_the_path(path: Seq<char>)
    ensures
        segments_of(path).len() > 0,
        join_of(segments_of(path), "/"@) == path,
        forall|i: int| 0 <= i < segments_of(path).len() ==> !(#[trigger] segments_of(path)[i]).contains('/'),
    decreases path.len(),
{
    lemma_segments_hold_no_slash(path);
    lemma_slash_stands(path);
    let n = first_of(path, '/');
    reveal_strlit("/");
    if 0 <= n < path.len() {
        let rest = path.skip(n + 1);
        law_segments_make_the_path(rest);
        crate::text::law_join_adds(seq![path.take(n)], segments_of(rest), "/"@);
        assert(seq![path.take(n)].take(1) =~= seq![path.take(n)]);
        assert(path =~= path.take(n) + "/"@ + rest);
    } else {
        assert(seq![path].drop_last() =~= Seq::empty());
        crate::text::law_join_adds(seq![path], seq![path], "/"@);
        assert(seq![path].take(1) =~= seq![path]);
    }
}

/// A slash stands where the first one is found.
proof fn lemma_slash_stands(s: Seq<char>)
    ensures
        0 <= first_of(s, '/') < s.len() ==> s[first_of(s, '/')] == '/',
    decreases s.len(),
{
    if s.len() > 0 && s[0] != '/' {
        lemma_first_is_first(s.skip(1));
        lemma_slash_stands(s.skip(1));
        let n = first_of(s.skip(1), '/');
        if n < s.len() - 1 {
            assert(s.skip(1)[n] == s[n + 1]);
        }
    }
}

/// Every segment that is neither empty nor a dot names something, in order.
pub proof fn law_every_name_counts(segments: Seq<Seq<char>>)
    ensures
        named(segments) == segments.filter(|s: Seq<char>| s.len() > 0 && s != "."@),
    decreases segments.len(),
{
    reveal(Seq::filter);
    if segments.len() > 0 {
        law_every_name_counts(segments.drop_last());
    }
}

/// A path joined to another has the segments of both, unless it begins at the root.
pub proof fn law_joined_path_has_both(base: Seq<char>, part: Seq<char>)
    ensures
        is_absolute_of(part) ==> join_path_of(base, part) == part,
        !is_absolute_of(part) && base.len() > 0 && base.last() != '/' ==> segments_of(join_path_of(base, part))
            == segments_of(base) + segments_of(part),
        !is_absolute_of(part) && base.len() > 0 && base.last() == '/' ==> segments_of(join_path_of(base, part))
            == segments_of(base.drop_last()) + segments_of(part),
        !is_absolute_of(part) && base.len() == 0 ==> join_path_of(base, part) == part,
{
    reveal_strlit("/");
    if !is_absolute_of(part) {
        if base.len() == 0 {
            assert(base + part =~= part);
        } else if base.last() == '/' {
            assert(base + part =~= base.drop_last() + "/"@ + part);
            lemma_segments_add(base.drop_last(), part);
        } else {
            lemma_segments_add(base, part);
        }
    }
}

/// The components of a path: the root where it begins there, or a dot where it begins
/// with one, then every segment that names something.
pub proof fn law_components_begin_with_root_or_dot(path: Seq<char>)
    ensures
        path.len() > 0 && path[0] == '/' ==> components_of(path) == seq!["/"@] + named(segments_of(path)),
        (path.len() == 0 || path[0] != '/') && segments_of(path)[0] == "."@ ==> components_of(path) == seq!["."@] + named(
            segments_of(path),
        ),
        (path.len() == 0 || path[0] != '/') && segments_of(path)[0] != "."@ ==> components_of(path) == named(
            segments_of(path),
        ),
{
    reveal_strlit("/");
    if path.len() > 0 {
        assert(path.take(1)[0] == path[0]);
        if path[0] == '/' {
            assert(path.take(1) =~= "/"@);
        }
        assert(path.subrange(0, 1)[0] == path[0]);
    }
}

/// A path is seen from another exactly where it lies in it; what is seen is what follows.
pub proof fn law_relative_path_is_the_rest(base: Seq<char>, path: Seq<char>)
    ensures
        relative_of(path, base) is Some <==> components_of(base).is_prefix_of(components_of(path)),
        is_absolute_of(base) && (relative_of(path, base) matches Some(r) && components_of(path).len() > components_of(
            base,
        ).len()) ==> segments_of(relative_of(path, base)->0) == components_of(path).skip(
            components_of(base).len() as int,
        ),
        relative_of(path, path) == Some(Seq::<char>::empty()),
{
    law_containment_is_transitive(path, path, path);
    assert(components_of(path).skip(components_of(path).len() as int) =~= Seq::empty());
    if is_absolute_of(base) && relative_of(path, base) is Some && components_of(path).len() > components_of(base).len() {
        let rest = components_of(path).skip(components_of(base).len() as int);
        law_absolute_components(base);
        assert(components_of(base) =~= components_of(path).subrange(0, components_of(base).len() as int));
        assert(components_of(path)[0] == components_of(base)[0]);
        lemma_segments_hold_no_slash(path);
        lemma_named_are_plain(segments_of(path));
        let names = named(segments_of(path));
        assert forall|i: int| 0 <= i < rest.len() implies !(#[trigger] rest[i]).contains('/') by {
            let k = components_of(base).len() + i;
            assert(rest[i] == components_of(path)[k]);
            if components_of(path).len() == names.len() {
                assert(components_of(path)[k] == names[k]);
            } else {
                assert(components_of(path)[k] == names[k - 1]);
            }
        }
        lemma_join_names(rest);
    }
}

/// The file name of a path is its last component, unless that is the root or dots.
pub proof fn law_file_name_is_last(path: Seq<char>)
    ensures
        file_name_of(path) is Some <==> components_of(path).len() > 0 && components_of(path).last() != "/"@
            && components_of(path).last() != "."@ && components_of(path).last() != ".."@,
        file_name_of(path) matches Some(name) ==> name == components_of(path).last(),
{
}

/// The extension of a file is what follows the last dot of its name, where something
/// stands before that dot.
pub proof fn law_extension_follows_last_dot(path: Seq<char>, stem: Seq<char>, ext: Seq<char>)
    requires
        !ext.contains('.'),
    ensures
        stem.len() > 0 && file_name_of(path) == Some(stem + "."@ + ext) ==> extension_of(path) == Some(ext),
        file_name_of(path) == Some("."@ + ext) ==> extension_of(path) is None,
        file_name_of(path) == Some(ext) ==> extension_of(path) is None,
        file_name_of(path) is None ==> extension_of(path) is None,
{
    reveal_strlit(".");
    assert((stem + "."@ + ext).skip(stem.len() as int + 1) =~= ext);
    assert(("."@ + ext).skip(1) =~= ext);
    lemma_last_dot_at(stem + "."@ + ext, stem.len() as int);
    lemma_last_dot_at("."@ + ext, 0);
    lemma_no_dot(ext);
}

proof fn lemma_last_dot_at(s: Seq<char>, i: int)
    requires
        0 <= i < s.len(),
        s[i] == '.',
        !s.skip(i + 1).contains('.'),
    ensures
        last_dot(s) == i,
    decreases s.len(),
{
    if i < s.len() - 1 {
        assert(s.last() == s.skip(i + 1)[s.len() - i - 2]);
        assert(s.skip(i + 1).contains(s.last()));
        let t = s.drop_last();
        let rest = t.skip(i + 1);
        assert(!rest.contains('.')) by {
            if rest.contains('.') {
                let k = choose|k: int| 0 <= k < rest.len() && rest[k] == '.';
                assert(s.skip(i + 1)[k] == '.');
            }
        }
        lemma_last_dot_at(t, i);
    }
}

proof fn lemma_no_dot(s: Seq<char>)
    requires
        !s.contains('.'),
    ensures
        last_dot(s) == -1,
    decreases s.len(),
{
    if s.len() > 0 {
        assert(s.contains(s.last())) by {
            assert(s[s.len() - 1] == s.last());
        }
        let t = s.drop_last();
        assert(!t.contains('.')) by {
            if t.contains('.') {
                let k = choose|k: int| 0 <= k < t.len() && t[k] == '.';
                assert(s[k] == '.');
            }
        }
        lemma_no_dot(t);
    }
}

/// The parent of a relative path is made of its components but for the last, with a slash
/// between two neighbours and none before the first.
pub proof fn law_parent_of_relative_path(path: Seq<char>)
    requires
        components_of(path).len() > 0,
        components_of(path)[0] != "/"@,
    ensures
        parent_of(path) == join_of(components_of(path).drop_last(), "/"@),
{
}

} // verus!
