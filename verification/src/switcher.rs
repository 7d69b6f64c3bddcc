use vstd::prelude::*;
use vstd::string::*;

verus! {

/// The state of the active link: either nothing is selected, or the link
/// points at the installation root of one runtime.
pub enum LinkState {
    Absent,
    Present { target: String },
}

impl View for LinkState {
    /// A link state is modelled by the path it designates, if any.
    type V = Option<Seq<char>>;

    open spec fn view(&self) -> Option<Seq<char>> {
        match self {
            LinkState::Absent => None,
            LinkState::Present { target } => Some(target@),
        }
    }
}

/// The link after its target was removed: it designates nothing.
pub open spec fn spec_clear(l: Option<Seq<char>>) -> Option<Seq<char>> {
    None
}

/// The link after a fresh link to `t` was created.
pub open spec fn spec_create(l: Option<Seq<char>>, t: Seq<char>) -> Option<Seq<char>> {
    Some(t)
}

/// The link after a switch to `t`: removal of the old target followed by
/// creation of the new link.
pub open spec fn spec_switch(l: Option<Seq<char>>, t: Seq<char>) -> Option<Seq<char>> {
    spec_create(spec_clear(l), t)
}

/// The location of the active link below the given state directory.
pub fn get_current_link_path(root: &str) -> (r: String)
    ensures
        r@ == root@ + "/current"@,
{
    let mut s = root.to_owned();
    s.append("/current");
    s
}

/// Removes whatever the active link points at, leaving it absent.  This is
/// the first half of a switch; a switch interrupted after this step leaves
/// no active runtime, it never leaves the link on a stale target.
pub fn clear_link(link: &mut LinkState)
    ensures
        final(link)@ == spec_clear(old(link)@),
{
    *link = LinkState::Absent;
}

/// Points the active link at the given target, whatever it pointed at
/// before.
pub fn create_link(link: &mut LinkState, target: String)
    ensures
        final(link)@ == spec_create(old(link)@, target@),
{
    *link = LinkState::Present { target };
}

/// Repoints the active link at the given target: the old target, if any, is
/// removed first, then the link is created afresh.
pub fn switch_to(link: &mut LinkState, target: String)
    ensures
        final(link)@ == spec_switch(old(link)@, target@),
{
    clear_link(link);
    create_link(link, target);
}

/// Reads back the target of the active link: the path it points at, or
/// nothing when no runtime is selected.
pub fn get_current(link: &LinkState) -> (r: Option<&String>)
    ensures
        match r {
            Some(p) => link@ == Some(p@),
            None => link@ is None,
        },
{
    match link {
        LinkState::Absent => None,
        LinkState::Present { target } => Some(target),
    }
}

/// After a switch to `p`, whatever the link pointed at before, the link
/// designates exactly `p`, so a read-back yields `p`.
pub proof fn lemma_switch_then_read(l: Option<Seq<char>>, p: Seq<char>)
    ensures
        spec_switch(l, p) == Some(p),
{
}

/// Two switches in a row leave the link pointing only at the second
/// target: after switching to `a` and then to `b` the link designates `b`,
/// and no longer `a` when the two differ.
pub proof fn lemma_switch_twice(l: Option<Seq<char>>, a: Seq<char>, b: Seq<char>)
    ensures
        spec_switch(spec_switch(l, a), b) == Some(b),
        a != b ==> spec_switch(spec_switch(l, a), b) != Some(a),
{
}

} // verus!
