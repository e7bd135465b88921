use crate::gui::flags::UiField;
use hecs::{Entity, With, Without, World};
use vstd::prelude::*;

verus! {

#[verifier::external_type_specification]
#[verifier::external_body]
pub struct ExWorld(World);

/// The handle of a widget: the bits of the entity that holds its components.
#[derive(Clone, Copy, Debug, PartialEq, Eq, Hash, Structural)]
pub struct Handle(pub u64);

impl Handle {
    /// The raw key of the handle.
    pub fn get_key(&self) -> (r: u64)
        ensures
            r == self.0,
    {
        self.0
    }
}

/// Marker component of every widget entity.
pub struct Widget;

/// The action flags of a widget.
pub struct Actions(pub UiField);

/// The widget that a widget belongs to.
pub struct Parent(pub Handle);

/// Marker component of a widget that was added hidden.
pub struct Hidden;

/// What the world holds of each widget entity (one that carries the `Widget`
/// marker and an `Actions` component), keyed by the entity's bits: its action
/// bits, the key of its `Parent` component if it has one, and whether it
/// carries the `Hidden` marker.
pub uninterp spec fn widget_table(world: World) -> Map<u64, (u16, Option<u64>, bool)>;

/// A new, empty world (`World::new`): it holds no widget.
#[verifier::external_body]
pub(crate) fn world_new() -> (r: World)
    ensures
        widget_table(r).is_empty(),
{
    World::new()
}

/// Spawns an entity holding the `Widget` marker and `actions` (`World::spawn`).
/// The contract states that the entity is new and that nothing else changes.
#[verifier::external_body]
pub(crate) fn world_spawn_widget(world: &mut World, actions: UiField) -> (h: Handle)
    ensures
        !widget_table(*old(world)).contains_key(h.0),
        widget_table(*final(world)) == widget_table(*old(world)).insert(h.0, (actions.0, None, false)),
{
    Handle(world.spawn((Widget, Actions(actions))).to_bits().get())
}

/// Reads the `Actions` component of a widget (`World::get`).
#[verifier::external_body]
pub(crate) fn world_actions(world: &World, h: Handle) -> (r: UiField)
    requires
        widget_table(*world).contains_key(h.0),
    ensures
        r.0 == widget_table(*world)[h.0].0,
{
    world.get::<&Actions>(Entity::from_bits(h.0).unwrap()).unwrap().0
}

/// Overwrites the `Actions` component of a widget (`World::get` with a unique borrow).
#[verifier::external_body]
pub(crate) fn world_set_actions(world: &mut World, h: Handle, actions: UiField)
    requires
        widget_table(*old(world)).contains_key(h.0),
    ensures
        widget_table(*final(world)) == widget_table(*old(world)).insert(
            h.0,
            (actions.0, widget_table(*old(world))[h.0].1, widget_table(*old(world))[h.0].2),
        ),
{
    world.get::<&mut Actions>(Entity::from_bits(h.0).unwrap()).unwrap().0 = actions;
}

/// Reads the `Parent` component of a widget, if it has one (`World::get`).
#[verifier::external_body]
pub(crate) fn world_parent(world: &World, h: Handle) -> (r: Option<Handle>)
    requires
        widget_table(*world).contains_key(h.0),
    ensures
        r == (match widget_table(*world)[h.0].1 {
            Some(p) => Some(Handle(p)),
            None => None,
        }),
{
    world.get::<&Parent>(Entity::from_bits(h.0).unwrap()).ok().map(|p| p.0)
}

/// Gives a widget a `Parent` component (`World::insert_one`).
#[verifier::external_body]
pub(crate) fn world_set_parent(world: &mut World, h: Handle, parent: Handle)
    requires
        widget_table(*old(world)).contains_key(h.0),
    ensures
        widget_table(*final(world)) == widget_table(*old(world)).insert(
            h.0,
            (widget_table(*old(world))[h.0].0, Some(parent.0), widget_table(*old(world))[h.0].2),
        ),
{
    let _ = world.insert_one(Entity::from_bits(h.0).unwrap(), Parent(parent));
}

/// Gives a widget the `Hidden` marker (`World::insert_one`).
#[verifier::external_body]
pub(crate) fn world_set_hidden(world: &mut World, h: Handle)
    requires
        widget_table(*old(world)).contains_key(h.0),
    ensures
        widget_table(*final(world)) == widget_table(*old(world)).insert(
            h.0,
            (widget_table(*old(world))[h.0].0, widget_table(*old(world))[h.0].1, true),
        ),
{
    let _ = world.insert_one(Entity::from_bits(h.0).unwrap(), Hidden);
}

/// Removes a widget entity and all its components (`World::despawn`).
#[verifier::external_body]
pub(crate) fn world_despawn(world: &mut World, h: Handle)
    requires
        widget_table(*old(world)).contains_key(h.0),
    ensures
        widget_table(*final(world)) == widget_table(*old(world)).remove(h.0),
{
    let _ = world.despawn(Entity::from_bits(h.0).unwrap());
}

/// Every widget that has a `Parent` component and no `Hidden` marker, paired
/// with its parent (`World::query`). The order is the query's own, which
/// the contract leaves open.
#[verifier::external_body]
pub(crate) fn world_visible_links(world: &World) -> (r: Vec<(Handle, Handle)>)
    ensures
        forall|i: int, j: int|
            0 <= i < j < r@.len() ==> (#[trigger] r@[i]).0 != (#[trigger] r@[j]).0,
        forall|h: u64, p: u64|
            r@.contains((Handle(h), Handle(p))) <==> (widget_table(*world).contains_key(h)
                && widget_table(*world)[h].1 == Some(p) && !widget_table(*world)[h].2),
{
    world.query::<Without<(&Widget, &Actions, &Parent), &Hidden>>().iter().map(|(e, (_, _, p))| (Handle(e.to_bits().get()), p.0)).collect()
}

/// Every widget that has a `Parent` component and the `Hidden` marker, paired
/// with its parent (`World::query`). The order is the query's own, which
/// the contract leaves open.
#[verifier::external_body]
pub(crate) fn world_hidden_links(world: &World) -> (r: Vec<(Handle, Handle)>)
    ensures
        forall|i: int, j: int|
            0 <= i < j < r@.len() ==> (#[trigger] r@[i]).0 != (#[trigger] r@[j]).0,
        forall|h: u64, p: u64|
            r@.contains((Handle(h), Handle(p))) <==> (widget_table(*world).contains_key(h)
                && widget_table(*world)[h].1 == Some(p) && widget_table(*world)[h].2),
{
    world.query::<With<(&Widget, &Actions, &Parent), &Hidden>>().iter().map(|(e, (_, _, p))| (Handle(e.to_bits().get()), p.0)).collect()
}

/// Every widget entity (`World::query`), in the query's own order.
#[verifier::external_body]
pub(crate) fn world_all_widgets(world: &World) -> (r: Vec<Handle>)
    ensures
        forall|i: int, j: int| 0 <= i < j < r@.len() ==> r@[i] != r@[j],
        forall|h: u64| r@.contains(Handle(h)) <==> widget_table(*world).contains_key(h),
{
    world.query::<(&Widget, &Actions)>().iter().map(|(e, _)| Handle(e.to_bits().get())).collect()
}

} // verus!
