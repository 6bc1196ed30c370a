//! The pre-restore displacement policy: what happens to each live target
//! directory before the archive is extracted over it.
//!
//! One boolean choice applies uniformly to every target: move the
//! directory aside under a timestamped sibling name, or delete it
//! outright.  The caller performs the filesystem action; this module
//! decides it, names the sibling, and states what each action does to the
//! parent directory's children.

use vstd::prelude::*;
use vstd::string::*;

verus! {

/// What to do with one target directory before extraction.
pub enum DisplaceAction {
    /// Move the directory aside to a sibling under the given name.
    Rename(String),
    /// Delete the directory and its full contents.
    Remove,
    /// The directory does not exist; nothing to displace.
    Keep,
}

/// The sibling name a displaced directory is renamed to: its own name
/// with the timestamp appended.
pub open spec fn displaced_name(name: Seq<char>, ts: Seq<char>) -> Seq<char> {
    name + ts
}

/// Decides the displacement of one target directory: absent directories
/// are kept as they are, live ones are renamed to their timestamped
/// sibling when `by_rename` holds and removed otherwise.
pub fn plan_displacement(name: &str, exists: bool, by_rename: bool, ts: &str) -> (a:
    DisplaceAction)
    ensures
        !exists ==> a is Keep,
        exists && by_rename ==> (a matches DisplaceAction::Rename(n) && n@ == displaced_name(
            name@,
            ts@,
        )),
        exists && !by_rename ==> a is Remove,
{
    if !exists {
        DisplaceAction::Keep
    } else if by_rename {
        DisplaceAction::Rename(String::from_str(name).concat(ts))
    } else {
        DisplaceAction::Remove
    }
}

/// The parent directory's children after a rename: the contents move,
/// untouched, from the old name to the new one.
pub open spec fn apply_rename<C>(
    children: Map<Seq<char>, C>,
    name: Seq<char>,
    renamed: Seq<char>,
) -> Map<Seq<char>, C> {
    children.remove(name).insert(renamed, children[name])
}

/// The parent directory's children after a removal.
pub open spec fn apply_remove<C>(children: Map<Seq<char>, C>, name: Seq<char>) -> Map<
    Seq<char>,
    C,
> {
    children.remove(name)
}

/// Displacing by rename preserves the directory's full contents,
/// unmodified, under the timestamped sibling name; nothing is left under
/// the original name, and no other sibling is touched.
pub proof fn lemma_rename_preserves_contents<C>(
    children: Map<Seq<char>, C>,
    name: Seq<char>,
    ts: Seq<char>,
)
    requires
        children.dom().contains(name),
        ts.len() > 0,
    ensures
        apply_rename(children, name, displaced_name(name, ts)).dom().contains(
            displaced_name(name, ts),
        ),
        apply_rename(children, name, displaced_name(name, ts))[displaced_name(name, ts)]
            == children[name],
        !apply_rename(children, name, displaced_name(name, ts)).dom().contains(name),
        forall|k: Seq<char>|
            k != name && k != displaced_name(name, ts) ==> (apply_rename(
                children,
                name,
                displaced_name(name, ts),
            ).dom().contains(k) == children.dom().contains(k) && (children.dom().contains(k)
                ==> apply_rename(children, name, displaced_name(name, ts))[k] == children[k])),
{
    assert(displaced_name(name, ts).len() == name.len() + ts.len());
}

/// Displacing by removal leaves no trace of the directory and touches no
/// other sibling.
pub proof fn lemma_remove_erases_contents<C>(children: Map<Seq<char>, C>, name: Seq<char>)
    ensures
        !apply_remove(children, name).dom().contains(name),
        forall|k: Seq<char>|
            k != name ==> (apply_remove(children, name).dom().contains(k)
                == children.dom().contains(k) && (children.dom().contains(k) ==> apply_remove(
                children,
                name,
            )[k] == children[k])),
{
}

} // verus!
