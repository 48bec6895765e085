//! Where a path leads that a tool is given, and whether the tool may go there.
use vstd::prelude::*;

use crate::model::maybe_text;
use crate::path_text::{components_of, file_name, file_name_of, is_absolute, is_absolute_of, is_plain_name, is_straight, join_path, join_path_of, law_absolute_components, law_containment_is_transitive, law_file_name_is_plain, law_name_becomes_last_component, law_parent_drops_last_component, lies_in, lies_within, parent, parent_of};
use crate::text::{lemma_texts_push, texts};

verus! {

/// A path on its way to be resolved. The file system is asked for `existing`; while
/// there is nothing there, its last name is set aside, so that a path to a file that
/// is yet to be made can be resolved too.
pub struct Resolution {
    pub existing: String,
    /// The names that were set aside, the last one of the path first.
    pub missing: Vec<String>,
    /// How many links were followed that lead to nothing.
    pub links: u32,
}

/// How many links are followed that lead to nothing.
pub const MAX_LINKS: u32 = 40;

/// What is known of a path on its way to be resolved.
pub struct ResolutionView {
    pub existing: Seq<char>,
    pub missing: Seq<Seq<char>>,
    pub links: u32,
}

/// Where a path leads that is given in a directory.
pub open spec fn located(path: Seq<char>, dir: Seq<char>) -> Seq<char> {
    if is_absolute_of(path) {
        path
    } else {
        join_path_of(dir, path)
    }
}

/// A resolution with the last name set aside.
pub open spec fn climbed(r: ResolutionView) -> Option<ResolutionView> {
    match file_name_of(r.existing) {
        Some(name) => Some(ResolutionView { existing: parent_of(r.existing), missing: r.missing.push(name), ..r }),
        None => None,
    }
}

/// A resolution that goes on where a link leads, which stands at the end of `existing`
/// and leads nowhere that is there; none where too many have been followed.
pub open spec fn followed(r: ResolutionView, link: Seq<char>) -> Option<ResolutionView> {
    if file_name_of(r.existing) is Some && r.links < MAX_LINKS {
        Some(
            ResolutionView {
                existing: located(link, parent_of(r.existing)),
                missing: r.missing,
                links: (r.links + 1) as u32,
            },
        )
    } else {
        None
    }
}

/// A resolution that goes on where there is nothing at `existing`: where a link stands
/// there, with what it leads to, else with the last name set aside.
pub open spec fn passed(r: ResolutionView, link: Option<Seq<char>>) -> Option<ResolutionView> {
    match link {
        Some(l) => followed(r, l),
        None => climbed(r),
    }
}

/// All of the texts are names.
pub open spec fn are_names(missing: Seq<Seq<char>>) -> bool {
    forall|i: int| 0 <= i < missing.len() ==> is_plain_name(#[trigger] missing[i])
}

/// The names that were set aside, put behind a path again.
pub open spec fn with_missing(path: Seq<char>, missing: Seq<Seq<char>>) -> Seq<char>
    decreases missing.len(),
{
    if missing.len() == 0 {
        path
    } else {
        join_path_of(with_missing(path, missing.skip(1)), missing[0])
    }
}

/// What is said of a path that a tool may not follow.
pub open spec fn escape_text(target: Seq<char>) -> Seq<char> {
    "Path escapes working directory: "@ + target
}

/// Where a path leads that is given in a directory.
pub fn locate(path: &str, dir: &str) -> (r: String)
    ensures
        r@ == located(path@, dir@),
{
    if is_absolute(path) {
        String::from_str(path)
    } else {
        join_path(dir, path)
    }
}

impl Resolution {
    /// What is known of the path.
    pub open spec fn view(&self) -> ResolutionView {
        ResolutionView { existing: self.existing@, missing: texts(self.missing@), links: self.links }
    }

    /// What was set aside are names, neither dots nor paths, and no more links were
    /// followed than may be.
    pub open spec fn wf(&self) -> bool {
        are_names(self@.missing) && self.links <= MAX_LINKS
    }

    /// The path that is given in a directory, before the file system is asked.
    pub fn start(root: &str, target: &str) -> (r: Resolution)
        ensures
            r.wf(),
            r@ == (ResolutionView { existing: located(target@, root@), missing: Seq::empty(), links: 0 }),
    {
        let r = Resolution { existing: locate(target, root), missing: Vec::new(), links: 0 };
        assert(r@.missing =~= Seq::empty());
        r
    }

    /// Sets the last name aside, where there is one. Returns whether there was.
    pub fn climb(&mut self) -> (r: bool)
        requires
            old(self).wf(),
        ensures
            final(self).wf(),
            match climbed(old(self)@) {
                Some(up) => r && final(self)@ == up,
                None => !r && final(self)@ == old(self)@,
            },
    {
        match file_name(self.existing.as_str()) {
            Some(name) => {
                proof {
                    lemma_texts_push(self.missing@, name);
                    law_file_name_is_plain(self.existing@);
                }
                let up = parent(self.existing.as_str());
                self.existing = up;
                self.missing.push(name);
                true
            },
            None => false,
        }
    }

    /// Goes on where a link leads, given what it says: `existing` names the link, and
    /// there is nothing where it leads. Returns whether it may be followed.
    pub fn follow(&mut self, link: &str) -> (r: bool)
        requires
            old(self).wf(),
        ensures
            final(self).wf(),
            match followed(old(self)@, link@) {
                Some(on) => r && final(self)@ == on,
                None => !r && final(self)@ == old(self)@,
            },
    {
        if self.links >= MAX_LINKS {
            return false;
        }
        match file_name(self.existing.as_str()) {
            Some(_) => {
                self.existing = locate(link, parent(self.existing.as_str()).as_str());
                self.links = self.links + 1;
                true
            },
            None => false,
        }
    }

    /// Goes on where there is nothing at `existing`, given what the link says that
    /// stands there, if one does. Returns whether the file system is to be asked again.
    pub fn on_missing(&mut self, link: &Option<String>) -> (r: bool)
        requires
            old(self).wf(),
        ensures
            final(self).wf(),
            match passed(old(self)@, maybe_text(*link)) {
                Some(on) => r && final(self)@ == on,
                None => !r && final(self)@ == old(self)@,
            },
    {
        match link {
            Some(l) => self.follow(l.as_str()),
            None => self.climb(),
        }
    }

    /// Where the path leads, given what `existing` leads to, if it leads anywhere: a
    /// place in the directory `root`, or an error. Where what `existing` leads to has no
    /// dots among its components, the result has none.
    pub fn finish(&self, root: &str, target: &str, canonical: &Option<String>) -> (r: Result<String, String>)
        requires
            self.wf(),
        ensures
            match (r, *canonical) {
                (Ok(p), Some(c)) => p@ == with_missing(c@, self@.missing) && lies_in(p@, root@),
                (Err(e), Some(c)) => e@ == escape_text(target@) && !lies_in(with_missing(c@, self@.missing), root@),
                (Err(e), None) => e@ == escape_text(target@),
                (Ok(_), None) => false,
            },
            (r, *canonical) matches (Ok(p), Some(c)) ==> is_absolute_of(c@) && is_straight(c@) ==> is_absolute_of(p@)
                && is_straight(p@),
    {
        if let Some(c) = canonical {
            proof {
                if is_absolute_of(c@) {
                    law_new_names_stay_inside(c@, c@, self@.missing);
                }
            }
            let resolved = self.with_names(c.as_str());
            if lies_within(resolved.as_str(), root) {
                return Ok(resolved);
            }
        }
        let mut text = String::from_str("Path escapes working directory: ");
        text.append(target);
        Err(text)
    }

    /// The names that were set aside, put behind a path again.
    fn with_names(&self, path: &str) -> (r: String)
        ensures
            r@ == with_missing(path@, self@.missing),
    {
        let ghost all = texts(self.missing@);
        let n = self.missing.len();
        let mut out = String::from_str(path);
        let mut i: usize = n;
        assert(all.skip(n as int) =~= Seq::empty());
        while i > 0
            invariant
                i <= n == self.missing@.len(),
                all == texts(self.missing@),
                out@ == with_missing(path@, all.skip(i as int)),
            decreases i,
        {
            proof {
                assert(all.skip(i - 1).skip(1) =~= all.skip(i as int));
                assert(all.skip(i - 1)[0] == self.missing@[i - 1]@);
            }
            out = join_path(out.as_str(), self.missing[i - 1].as_str());
            i = i - 1;
        }
        assert(all.skip(0) =~= all);
        out
    }
}

// ---------------------------------------------------------------------------
// Laws
// ---------------------------------------------------------------------------

/// A path to something new is accepted where it begins at a place in the directory:
/// names behind such a place do not lead out of it, and lead straight where it does.
pub proof fn law_new_names_stay_inside(root: Seq<char>, canonical: Seq<char>, missing: Seq<Seq<char>>)
    requires
        is_absolute_of(canonical),
        lies_in(canonical, root),
        are_names(missing),
    ensures
        is_absolute_of(with_missing(canonical, missing)),
        lies_in(with_missing(canonical, missing), root),
        is_straight(canonical) ==> is_straight(with_missing(canonical, missing)),
    decreases missing.len(),
{
    if missing.len() > 0 {
        let rest = missing.skip(1);
        assert forall|i: int| 0 <= i < rest.len() implies is_plain_name(#[trigger] rest[i]) by {
            assert(rest[i] == missing[i + 1]);
        }
        law_new_names_stay_inside(root, canonical, rest);
        assert(is_plain_name(missing[0]));
        let base = with_missing(canonical, rest);
        law_name_becomes_last_component(base, missing[0]);
        law_containment_is_transitive(with_missing(canonical, missing), base, root);
        if is_straight(canonical) {
            let c = components_of(with_missing(canonical, missing));
            assert forall|i: int| 0 <= i < c.len() implies #[trigger] c[i] != "."@ && c[i] != ".."@ by {
                if i < c.len() - 1 {
                    assert(components_of(base)[i] == c[i]);
                }
            }
        }
    }
}

/// A path is resolved in a bounded number of steps: each that goes on either follows
/// one of the links that may be followed, or leaves the path with fewer components.
pub proof fn law_resolution_ends(r: ResolutionView, link: Option<Seq<char>>)
    requires
        is_absolute_of(r.existing),
        r.links <= MAX_LINKS,
    ensures
        passed(r, link) matches Some(on) ==> {
            ||| r.links < on.links <= MAX_LINKS
            ||| on.links == r.links && components_of(on.existing).len() < components_of(r.existing).len()
        },
{
    if link is None && file_name_of(r.existing) is Some {
        law_climbing_loses_nothing(r);
    }
}

/// Nothing is lost on the way: with the name that is set aside put behind it again,
/// the path has the components that it had before.
pub proof fn law_climbing_loses_nothing(r: ResolutionView)
    requires
        is_absolute_of(r.existing),
        file_name_of(r.existing) is Some,
    ensures
        climbed(r) matches Some(up) && is_absolute_of(up.existing) && components_of(up.existing).len()
            < components_of(r.existing).len() && components_of(with_missing(up.existing, up.missing.skip(r.missing.len() as int)))
            == components_of(r.existing),
{
    reveal_strlit("/");
    let name = file_name_of(r.existing)->0;
    let c = components_of(r.existing);
    law_absolute_components(r.existing);
    assert(c[0] == "/"@);
    assert(c.len() > 1);
    law_parent_drops_last_component(r.existing);
    let up = climbed(r)->0;
    let aside = up.missing.skip(r.missing.len() as int);
    assert(aside =~= seq![name]);
    assert(aside.skip(1) =~= Seq::empty());
    assert(is_plain_name(c[c.len() - 1]));
    law_name_becomes_last_component(up.existing, name);
    assert(with_missing(up.existing, aside.skip(1)) == up.existing);
    assert(with_missing(up.existing, aside) == join_path_of(up.existing, name));
    assert(c.drop_last().push(name) =~= c);
}

/// All names that were set aside are put behind the path again, the one that was set aside
/// last first.
pub proof fn law_names_come_back_in_order(path: Seq<char>, missing: Seq<Seq<char>>)
    requires
        is_absolute_of(path),
        are_names(missing),
    ensures
        is_absolute_of(with_missing(path, missing)),
        components_of(with_missing(path, missing)) == components_of(path) + missing.reverse(),
    decreases missing.len(),
{
    if missing.len() == 0 {
        assert(components_of(path) + missing.reverse() =~= components_of(path));
    } else {
        let rest = missing.skip(1);
        assert forall|i: int| 0 <= i < rest.len() implies is_plain_name(#[trigger] rest[i]) by {
            assert(rest[i] == missing[i + 1]);
        }
        law_names_come_back_in_order(path, rest);
        assert(is_plain_name(missing[0]));
        law_name_becomes_last_component(with_missing(path, rest), missing[0]);
        assert(missing.reverse() =~= rest.reverse().push(missing[0]));
        assert(components_of(with_missing(path, missing)) =~= components_of(path) + missing.reverse());
    }
}

/// A path is taken from the directory on, unless it begins at the root.
pub proof fn law_path_is_taken_from_directory(path: Seq<char>, dir: Seq<char>)
    ensures
        path.len() > 0 && path[0] == '/' ==> located(path, dir) == path,
        (path.len() == 0 || path[0] != '/') ==> located(path, dir) == join_path_of(dir, path),
{
    reveal_strlit("/");
    if path.len() > 0 {
        assert(path.take(1)[0] == path[0]);
        if path[0] == '/' {
            assert(path.take(1) =~= "/"@);
        }
    }
}

/// Up to forty links that lead to nothing are followed, each from where it stands, and the
/// names that were set aside are kept.
pub proof fn law_links_are_followed(r: ResolutionView, link: Seq<char>)
    requires
        file_name_of(r.existing) is Some,
    ensures
        r.links < 40 ==> (passed(r, Some(link)) matches Some(on) && on.existing == located(link, parent_of(r.existing))
            && on.missing == r.missing && on.links == r.links + 1),
        r.links >= 40 ==> passed(r, Some(link)) is None,
        passed(r, None) matches Some(on) && on.existing == parent_of(r.existing) && on.missing.drop_last() == r.missing
            && on.missing.last() == file_name_of(r.existing)->0 && on.links == r.links,
{
    let on = passed(r, None)->0;
    assert(on.missing.drop_last() =~= r.missing);
}

/// A path that resolves lies in the directory, with the missing names behind what exists.
/// Where nothing of it exists, or what it comes to lies elsewhere, it does not resolve.
pub proof fn law_resolved_path_lies_in_root(
    at: Resolution,
    root: &str,
    target: &str,
    canonical: Option<String>,
    r: Result<String, String>,
)
    requires
        at.wf(),
        call_ensures(Resolution::finish, (&at, root, target, &canonical), r),
    ensures
        r is Ok <==> canonical is Some && lies_in(with_missing(canonical->0@, at@.missing), root@),
        r is Ok ==> lies_in(r->Ok_0@, root@),
        r is Ok && at@.missing.len() == 0 ==> r->Ok_0@ == canonical->0@,
{
}

} // verus!
