//! Keeping the mesh and material of SVG entities in step with their SVG
//! assets.
//!
//! Entities, SVG assets and meshes are known by integer ids. For each asset
//! event the linker decides which entities get which mesh and material,
//! which old meshes are to be removed and which entities are to be
//! despawned; then it refreshes the entities whose SVG handle changed.
use vstd::prelude::*;

verus! {

/// An entity that may show an SVG, with the ids its components hold.
#[derive(Clone, Copy, Debug, PartialEq, Eq, Structural)]
pub struct SvgEntity {
    pub entity: u64,
    /// The SVG shown in 2D, if any.
    pub svg_2d: Option<u64>,
    /// The SVG shown in 3D, if any.
    pub svg_3d: Option<u64>,
    /// The SVG used as 2D material, if the entity has that component.
    pub material_2d: Option<u64>,
    /// The SVG used as 3D material, if the entity has that component.
    pub material_3d: Option<u64>,
    /// The 2D mesh, if the entity has that component.
    pub mesh_2d: Option<u64>,
    /// The 3D mesh, if the entity has that component.
    pub mesh_3d: Option<u64>,
}

/// A loaded SVG asset and the mesh it was tessellated into.
#[derive(Clone, Copy, Debug, PartialEq, Eq, Structural)]
pub struct LoadedSvg {
    pub svg: u64,
    pub mesh: u64,
}

/// An event about an SVG asset.
#[derive(Clone, Copy, Debug, PartialEq, Eq, Structural)]
pub enum SvgAssetEvent {
    Added(u64),
    LoadedWithDependencies(u64),
    Modified(u64),
    Removed(u64),
    Unused(u64),
}

/// What the linker decided.
pub struct LinkOutcome {
    /// The entities with their new components, in the order given.
    pub entities: Vec<SvgEntity>,
    /// The meshes to remove, in the order they were replaced.
    pub removed_meshes: Vec<u64>,
    /// The entities to despawn (with their children).
    pub despawned: Vec<u64>,
}

/// The mesh of the loaded SVG `id`, if it is loaded.
pub open spec fn mesh_of(svgs: Seq<LoadedSvg>, id: u64) -> Option<u64>
    decreases svgs.len(),
{
    if svgs.len() == 0 {
        None
    } else if svgs[0].svg == id {
        Some(svgs[0].mesh)
    } else {
        mesh_of(svgs.drop_first(), id)
    }
}

/// Whether an event about SVG `id` concerns the entity: its 2D SVG when it
/// has one, else its 3D SVG.
pub open spec fn shows(e: SvgEntity, id: u64) -> bool {
    match e.svg_2d {
        Some(h) => h == id,
        None => match e.svg_3d {
            Some(h) => h == id,
            None => false,
        },
    }
}

/// `Some(v)` where `o` is set.
pub open spec fn replace_set(o: Option<u64>, v: u64) -> Option<u64> {
    match o {
        Some(_) => Some(v),
        None => None,
    }
}

/// An entity once its SVG has loaded: its meshes become the SVG's mesh, and
/// each material it has becomes the SVG shown in that dimension.
pub open spec fn on_loaded(e: SvgEntity, mesh: u64) -> SvgEntity {
    SvgEntity {
        mesh_2d: replace_set(e.mesh_2d, mesh),
        material_2d: if e.svg_2d is Some && e.material_2d is Some { e.svg_2d } else { e.material_2d },
        mesh_3d: replace_set(e.mesh_3d, mesh),
        material_3d: if e.svg_3d is Some && e.material_3d is Some { e.svg_3d } else { e.material_3d },
        ..e
    }
}

/// An entity once its SVG was modified: its meshes become the SVG's mesh.
pub open spec fn on_modified(e: SvgEntity, mesh: u64) -> SvgEntity {
    SvgEntity { mesh_2d: replace_set(e.mesh_2d, mesh), mesh_3d: replace_set(e.mesh_3d, mesh), ..e }
}

/// The mesh given up by a component that held `old` and now holds `mesh`.
pub open spec fn replaced(old: Option<u64>, mesh: u64) -> Seq<u64> {
    match old {
        Some(m) => if m != mesh { seq![m] } else { seq![] },
        None => seq![],
    }
}

/// The effect of one event on one entity: the entity afterwards, the meshes
/// to remove, the entities to despawn.
pub open spec fn entity_event(e: SvgEntity, svgs: Seq<LoadedSvg>, ev: SvgAssetEvent) -> (SvgEntity, Seq<u64>, Seq<u64>) {
    match ev {
        SvgAssetEvent::LoadedWithDependencies(id) => if shows(e, id) {
            (on_loaded(e, mesh_of(svgs, id).unwrap()), seq![], seq![])
        } else {
            (e, seq![], seq![])
        },
        SvgAssetEvent::Modified(id) => if shows(e, id) {
            let m = mesh_of(svgs, id).unwrap();
            (on_modified(e, m), replaced(e.mesh_2d, m) + replaced(e.mesh_3d, m), seq![])
        } else {
            (e, seq![], seq![])
        },
        SvgAssetEvent::Removed(id) => if shows(e, id) {
            (e, seq![], seq![e.entity])
        } else {
            (e, seq![], seq![])
        },
        _ => (e, seq![], seq![]),
    }
}

/// The effect of one event on all entities, taken in order.
pub open spec fn event_over(ents: Seq<SvgEntity>, svgs: Seq<LoadedSvg>, ev: SvgAssetEvent) -> (Seq<SvgEntity>, Seq<u64>, Seq<u64>)
    decreases ents.len(),
{
    if ents.len() == 0 {
        (seq![], seq![], seq![])
    } else {
        let (a, r, d) = event_over(ents.drop_last(), svgs, ev);
        let (e, r2, d2) = entity_event(ents.last(), svgs, ev);
        (a.push(e), r + r2, d + d2)
    }
}

/// The effect of the events, one after the other.
pub open spec fn events_over(ents: Seq<SvgEntity>, svgs: Seq<LoadedSvg>, evs: Seq<SvgAssetEvent>) -> (Seq<SvgEntity>, Seq<u64>, Seq<u64>)
    decreases evs.len(),
{
    if evs.len() == 0 {
        (ents, seq![], seq![])
    } else {
        let (a, r, d) = event_over(ents, svgs, evs[0]);
        let (b, r2, d2) = events_over(a, svgs, evs.drop_first());
        (b, r + r2, d + d2)
    }
}

/// The position of the entity `id` in `ents`, if it is there.
pub open spec fn position_of(ents: Seq<SvgEntity>, id: u64) -> Option<int>
    decreases ents.len(),
{
    if ents.len() == 0 {
        None
    } else if ents[0].entity == id {
        Some(0)
    } else {
        match position_of(ents.drop_first(), id) {
            Some(k) => Some(k + 1),
            None => None,
        }
    }
}

/// An entity whose SVG handle changed: if the SVG it shows (2D first) is
/// loaded, its meshes become that SVG's mesh.
pub open spec fn refreshed(e: SvgEntity, svgs: Seq<LoadedSvg>) -> SvgEntity {
    let h = if e.svg_2d is Some { e.svg_2d } else { e.svg_3d };
    match h {
        Some(id) => match mesh_of(svgs, id) {
            Some(m) => on_modified(e, m),
            None => e,
        },
        None => e,
    }
}

/// The entities once those named in `changed` are refreshed in turn.
pub open spec fn changed_over(ents: Seq<SvgEntity>, svgs: Seq<LoadedSvg>, changed: Seq<u64>) -> Seq<SvgEntity>
    decreases changed.len(),
{
    if changed.len() == 0 {
        ents
    } else {
        let next = match position_of(ents, changed[0]) {
            Some(k) => ents.update(k, refreshed(ents[k], svgs)),
            None => ents,
        };
        changed_over(next, svgs, changed.drop_first())
    }
}

/// An event that needs the SVG loaded finds it loaded whenever an entity
/// shows that SVG.
pub open spec fn event_served(ents: Seq<SvgEntity>, svgs: Seq<LoadedSvg>, ev: SvgAssetEvent) -> bool {
    match ev {
        SvgAssetEvent::LoadedWithDependencies(id) => (exists|i: int| 0 <= i < ents.len() && shows(#[trigger] ents[i], id)) ==> mesh_of(svgs, id) is Some,
        SvgAssetEvent::Modified(id) => (exists|i: int| 0 <= i < ents.len() && shows(#[trigger] ents[i], id)) ==> mesh_of(svgs, id) is Some,
        _ => true,
    }
}

/// Two entity lists with the same entities showing the same SVGs.
pub open spec fn same_handles(a: Seq<SvgEntity>, b: Seq<SvgEntity>) -> bool {
    &&& a.len() == b.len()
    &&& forall|i: int| 0 <= i < a.len() ==> (#[trigger] a[i]).entity == b[i].entity && a[i].svg_2d == b[i].svg_2d && a[i].svg_3d == b[i].svg_3d
}

fn find_mesh(svgs: &Vec<LoadedSvg>, id: u64) -> (r: Option<u64>)
    ensures
        r == mesh_of(svgs@, id),
{
    let mut i: usize = 0;
    assert(svgs@.skip(0) =~= svgs@);
    while i < svgs.len()
        invariant
            i <= svgs@.len(),
            mesh_of(svgs@, id) == mesh_of(svgs@.skip(i as int), id),
        decreases svgs@.len() - i,
    {
        assert(svgs@.skip(i as int)[0] == svgs@[i as int]);
        assert(svgs@.skip(i as int).drop_first() =~= svgs@.skip(i + 1));
        if svgs[i].svg == id {
            return Some(svgs[i].mesh);
        }
        i = i + 1;
    }
    None
}

fn shows_svg(e: &SvgEntity, id: u64) -> (r: bool)
    ensures
        r == shows(*e, id),
{
    match e.svg_2d {
        Some(h) => h == id,
        None => match e.svg_3d {
            Some(h) => h == id,
            None => false,
        },
    }
}

fn set_if_present(o: Option<u64>, v: u64) -> (r: Option<u64>)
    ensures
        r == replace_set(o, v),
{
    match o {
        Some(_) => Some(v),
        None => None,
    }
}

fn push_replaced(removed: &mut Vec<u64>, previous: Option<u64>, mesh: u64)
    ensures
        final(removed)@ == old(removed)@ + replaced(previous, mesh),
{
    let ghost r0 = removed@;
    match previous {
        Some(m) => {
            if m != mesh {
                removed.push(m);
            }
        },
        None => {},
    }
    assert(removed@ =~= r0 + replaced(previous, mesh));
}

/// Applies one event to one entity, appending the meshes to remove and the
/// entities to despawn.
fn apply_event(e: SvgEntity, svgs: &Vec<LoadedSvg>, ev: SvgAssetEvent, removed: &mut Vec<u64>, despawned: &mut Vec<u64>) -> (r: SvgEntity)
    requires
        match ev {
            SvgAssetEvent::LoadedWithDependencies(id) => shows(e, id) ==> mesh_of(svgs@, id) is Some,
            SvgAssetEvent::Modified(id) => shows(e, id) ==> mesh_of(svgs@, id) is Some,
            _ => true,
        },
    ensures
        r == entity_event(e, svgs@, ev).0,
        final(removed)@ == old(removed)@ + entity_event(e, svgs@, ev).1,
        final(despawned)@ == old(despawned)@ + entity_event(e, svgs@, ev).2,
{
    let ghost r0 = removed@;
    let ghost d0 = despawned@;
    match ev {
        SvgAssetEvent::LoadedWithDependencies(id) => {
            if shows_svg(&e, id) {
                let mesh = find_mesh(svgs, id).unwrap();
                assert(removed@ =~= r0 + Seq::<u64>::empty());
                assert(despawned@ =~= d0 + Seq::<u64>::empty());
                SvgEntity {
                    mesh_2d: set_if_present(e.mesh_2d, mesh),
                    material_2d: if e.svg_2d.is_some() && e.material_2d.is_some() { e.svg_2d } else { e.material_2d },
                    mesh_3d: set_if_present(e.mesh_3d, mesh),
                    material_3d: if e.svg_3d.is_some() && e.material_3d.is_some() { e.svg_3d } else { e.material_3d },
                    ..e
                }
            } else {
                assert(removed@ =~= r0 + Seq::<u64>::empty());
                assert(despawned@ =~= d0 + Seq::<u64>::empty());
                e
            }
        },
        SvgAssetEvent::Modified(id) => {
            if shows_svg(&e, id) {
                let mesh = find_mesh(svgs, id).unwrap();
                push_replaced(removed, e.mesh_2d, mesh);
                push_replaced(removed, e.mesh_3d, mesh);
                assert(removed@ =~= r0 + (replaced(e.mesh_2d, mesh) + replaced(e.mesh_3d, mesh)));
                assert(despawned@ =~= d0 + Seq::<u64>::empty());
                SvgEntity { mesh_2d: set_if_present(e.mesh_2d, mesh), mesh_3d: set_if_present(e.mesh_3d, mesh), ..e }
            } else {
                assert(removed@ =~= r0 + Seq::<u64>::empty());
                assert(despawned@ =~= d0 + Seq::<u64>::empty());
                e
            }
        },
        SvgAssetEvent::Removed(id) => {
            assert(removed@ =~= r0 + Seq::<u64>::empty());
            if shows_svg(&e, id) {
                despawned.push(e.entity);
                assert(despawned@ =~= d0 + seq![e.entity]);
            } else {
                assert(despawned@ =~= d0 + Seq::<u64>::empty());
            }
            e
        },
        _ => {
            assert(removed@ =~= r0 + Seq::<u64>::empty());
            assert(despawned@ =~= d0 + Seq::<u64>::empty());
            e
        },
    }
}

proof fn lemma_event_over_handles(ents: Seq<SvgEntity>, svgs: Seq<LoadedSvg>, ev: SvgAssetEvent)
    ensures
        same_handles(event_over(ents, svgs, ev).0, ents),
    decreases ents.len(),
{
    if ents.len() > 0 {
        lemma_event_over_handles(ents.drop_last(), svgs, ev);
        let a = event_over(ents.drop_last(), svgs, ev).0;
        let e = entity_event(ents.last(), svgs, ev).0;
        assert forall|i: int| 0 <= i < ents.len() implies (#[trigger] a.push(e)[i]).entity == ents[i].entity
            && a.push(e)[i].svg_2d == ents[i].svg_2d && a.push(e)[i].svg_3d == ents[i].svg_3d by {
            if i < ents.len() - 1 {
                assert(a.push(e)[i] == a[i]);
                assert(ents.drop_last()[i] == ents[i]);
            }
        }
    }
}

proof fn lemma_served_same_handles(a: Seq<SvgEntity>, b: Seq<SvgEntity>, svgs: Seq<LoadedSvg>, ev: SvgAssetEvent)
    requires
        same_handles(a, b),
        event_served(a, svgs, ev),
    ensures
        event_served(b, svgs, ev),
{
    match ev {
        SvgAssetEvent::LoadedWithDependencies(id) => {
            if exists|i: int| 0 <= i < b.len() && shows(#[trigger] b[i], id) {
                let i = choose|i: int| 0 <= i < b.len() && shows(#[trigger] b[i], id);
                assert(shows(a[i], id));
            }
        },
        SvgAssetEvent::Modified(id) => {
            if exists|i: int| 0 <= i < b.len() && shows(#[trigger] b[i], id) {
                let i = choose|i: int| 0 <= i < b.len() && shows(#[trigger] b[i], id);
                assert(shows(a[i], id));
            }
        },
        _ => {},
    }
}

/// Applies one event to all entities.
fn apply_event_to_all(ents: Vec<SvgEntity>, svgs: &Vec<LoadedSvg>, ev: SvgAssetEvent, removed: &mut Vec<u64>, despawned: &mut Vec<u64>) -> (r: Vec<SvgEntity>)
    requires
        event_served(ents@, svgs@, ev),
    ensures
        r@ == event_over(ents@, svgs@, ev).0,
        final(removed)@ == old(removed)@ + event_over(ents@, svgs@, ev).1,
        final(despawned)@ == old(despawned)@ + event_over(ents@, svgs@, ev).2,
{
    let ghost r0 = removed@;
    let ghost d0 = despawned@;
    let mut out: Vec<SvgEntity> = Vec::new();
    let mut i: usize = 0;
    while i < ents.len()
        invariant
            i <= ents@.len(),
            event_served(ents@, svgs@, ev),
            out@ == event_over(ents@.take(i as int), svgs@, ev).0,
            removed@ == r0 + event_over(ents@.take(i as int), svgs@, ev).1,
            despawned@ == d0 + event_over(ents@.take(i as int), svgs@, ev).2,
        decreases ents@.len() - i,
    {
        let e = ents[i];
        let ghost pre = event_over(ents@.take(i as int), svgs@, ev);
        let ghost rm = removed@;
        let ghost dm = despawned@;
        proof {
            let next = ents@.take(i + 1);
            assert(next.drop_last() =~= ents@.take(i as int));
            assert(next.last() == e);
            match ev {
                SvgAssetEvent::LoadedWithDependencies(id) => {
                    if shows(e, id) {
                        assert(shows(ents@[i as int], id));
                    }
                },
                SvgAssetEvent::Modified(id) => {
                    if shows(e, id) {
                        assert(shows(ents@[i as int], id));
                    }
                },
                _ => {},
            }
        }
        let e2 = apply_event(e, svgs, ev, removed, despawned);
        out.push(e2);
        i = i + 1;
        proof {
            let step = entity_event(e, svgs@, ev);
            assert(removed@ =~= r0 + (pre.1 + step.1));
            assert(despawned@ =~= d0 + (pre.2 + step.2));
        }
    }
    assert(ents@.take(i as int) =~= ents@);
    out
}

fn find_entity(ents: &Vec<SvgEntity>, id: u64) -> (r: Option<usize>)
    ensures
        r matches Some(p) ==> position_of(ents@, id) == Some(p as int) && p < ents@.len(),
        r is None ==> position_of(ents@, id) is None,
{
    let mut i: usize = 0;
    while i < ents.len()
        invariant
            i <= ents@.len(),
            forall|j: int| 0 <= j < i ==> ents@[j].entity != id,
        decreases ents@.len() - i,
    {
        if ents[i].entity == id {
            proof {
                lemma_position_found(ents@, id, i as int);
            }
            return Some(i);
        }
        i = i + 1;
    }
    proof {
        lemma_position_missing(ents@, id);
    }
    None
}

proof fn lemma_position_found(ents: Seq<SvgEntity>, id: u64, i: int)
    requires
        0 <= i < ents.len(),
        ents[i].entity == id,
        forall|j: int| 0 <= j < i ==> ents[j].entity != id,
    ensures
        position_of(ents, id) == Some(i),
    decreases i,
{
    if i > 0 {
        lemma_position_found(ents.drop_first(), id, i - 1);
    }
}

proof fn lemma_position_missing(ents: Seq<SvgEntity>, id: u64)
    requires
        forall|j: int| 0 <= j < ents.len() ==> ents[j].entity != id,
    ensures
        position_of(ents, id) is None,
    decreases ents.len(),
{
    if ents.len() > 0 {
        lemma_position_missing(ents.drop_first(), id);
    }
}

fn refresh_entity(e: SvgEntity, svgs: &Vec<LoadedSvg>) -> (r: SvgEntity)
    ensures
        r == refreshed(e, svgs@),
{
    let h = if e.svg_2d.is_some() { e.svg_2d } else { e.svg_3d };
    match h {
        Some(id) => match find_mesh(svgs, id) {
            Some(m) => SvgEntity { mesh_2d: set_if_present(e.mesh_2d, m), mesh_3d: set_if_present(e.mesh_3d, m), ..e },
            None => e,
        },
        None => e,
    }
}

/// Links meshes and materials to SVG entities: applies the asset events in
/// order to all entities, then refreshes the entities whose SVG handle
/// changed.
pub fn link_svg_meshes(entities: Vec<SvgEntity>, svgs: &Vec<LoadedSvg>, events: &Vec<SvgAssetEvent>, changed: &Vec<u64>) -> (r: LinkOutcome)
    requires
        forall|k: int| 0 <= k < events@.len() ==> event_served(entities@, svgs@, #[trigger] events@[k]),
    ensures
        r.entities@ == changed_over(events_over(entities@, svgs@, events@).0, svgs@, changed@),
        r.removed_meshes@ == events_over(entities@, svgs@, events@).1,
        r.despawned@ == events_over(entities@, svgs@, events@).2,
{
    let ghost ents0 = entities@;
    let mut ents = entities;
    let mut removed: Vec<u64> = Vec::new();
    let mut despawned: Vec<u64> = Vec::new();
    let mut k: usize = 0;
    assert(events@.skip(0) =~= events@);
    while k < events.len()
        invariant
            k <= events@.len(),
            same_handles(ents@, ents0),
            forall|j: int| 0 <= j < events@.len() ==> event_served(ents0, svgs@, #[trigger] events@[j]),
            events_over(ents0, svgs@, events@) == ({
                let (b, r2, d2) = events_over(ents@, svgs@, events@.skip(k as int));
                (b, removed@ + r2, despawned@ + d2)
            }),
        decreases events@.len() - k,
    {
        let ev = events[k];
        let ghost rm = removed@;
        let ghost dm = despawned@;
        let ghost before = ents@;
        proof {
            assert(event_served(ents0, svgs@, events@[k as int]));
            lemma_served_same_handles(ents0, ents@, svgs@, ev);
            assert(events@.skip(k as int)[0] == ev);
            assert(events@.skip(k as int).drop_first() =~= events@.skip(k + 1));
        }
        ents = apply_event_to_all(ents, svgs, ev, &mut removed, &mut despawned);
        proof {
            lemma_event_over_handles(before, svgs@, ev);
            let step = event_over(before, svgs@, ev);
            let rest = events_over(step.0, svgs@, events@.skip(k + 1));
            assert(rm + (step.1 + rest.1) =~= (rm + step.1) + rest.1);
            assert(dm + (step.2 + rest.2) =~= (dm + step.2) + rest.2);
        }
        k = k + 1;
    }
    proof {
        assert(events@.skip(k as int) =~= Seq::<SvgAssetEvent>::empty());
        assert(removed@ + Seq::<u64>::empty() =~= removed@);
        assert(despawned@ + Seq::<u64>::empty() =~= despawned@);
    }
    let ghost after_events = ents@;
    let mut c: usize = 0;
    assert(changed@.skip(0) =~= changed@);
    while c < changed.len()
        invariant
            c <= changed@.len(),
            changed_over(after_events, svgs@, changed@) == changed_over(ents@, svgs@, changed@.skip(c as int)),
        decreases changed@.len() - c,
    {
        proof {
            assert(changed@.skip(c as int)[0] == changed@[c as int]);
            assert(changed@.skip(c as int).drop_first() =~= changed@.skip(c + 1));
        }
        let ghost old_ents = ents@;
        let ghost tail = changed@.skip(c as int);
        let found = find_entity(&ents, changed[c]);
        proof {
            assert(tail[0] == changed@[c as int]);
        }
        match found {
            Some(pos) => {
                let e = refresh_entity(ents[pos], svgs);
                ents.set(pos, e);
                proof {
                    assert(position_of(old_ents, tail[0]) == Some(pos as int));
                    assert(ents@ == old_ents.update(pos as int, refreshed(old_ents[pos as int], svgs@)));
                    assert(changed_over(old_ents, svgs@, tail) == changed_over(ents@, svgs@, tail.drop_first()));
                }
            },
            None => {
                proof {
                    assert(position_of(old_ents, tail[0]) is None);
                    assert(changed_over(old_ents, svgs@, tail) == changed_over(ents@, svgs@, tail.drop_first()));
                }
            },
        }
        c = c + 1;
    }
    assert(changed@.skip(c as int) =~= Seq::<u64>::empty());
    LinkOutcome { entities: ents, removed_meshes: removed, despawned }
}

/// Law: linking never changes which entity shows which SVG: the entity
/// list keeps its length, and every entity keeps its id and its 2D and 3D
/// SVG handles.
pub proof fn law_link_keeps_handles(ents: Seq<SvgEntity>, svgs: Seq<LoadedSvg>, evs: Seq<SvgAssetEvent>)
    ensures
        same_handles(events_over(ents, svgs, evs).0, ents),
    decreases evs.len(),
{
    if evs.len() == 0 {
    } else {
        let a = event_over(ents, svgs, evs[0]).0;
        lemma_event_over_handles(ents, svgs, evs[0]);
        law_link_keeps_handles(a, svgs, evs.drop_first());
    }
}

/// Law: once an SVG has loaded, every entity that shows it and has a mesh
/// component holds the SVG's mesh in that component.
pub proof fn law_loaded_svg_mesh(ents: Seq<SvgEntity>, svgs: Seq<LoadedSvg>, id: u64, m: u64, i: int)
    requires
        mesh_of(svgs, id) == Some(m),
        0 <= i < ents.len(),
        shows(ents[i], id),
    ensures
        event_over(ents, svgs, SvgAssetEvent::LoadedWithDependencies(id)).0[i].mesh_2d == replace_set(ents[i].mesh_2d, m),
        event_over(ents, svgs, SvgAssetEvent::LoadedWithDependencies(id)).0[i].mesh_3d == replace_set(ents[i].mesh_3d, m),
    decreases ents.len(),
{
    let ev = SvgAssetEvent::LoadedWithDependencies(id);
    if i < ents.len() - 1 {
        assert(ents.drop_last()[i] == ents[i]);
        law_loaded_svg_mesh(ents.drop_last(), svgs, id, m, i);
        lemma_event_over_len(ents.drop_last(), svgs, ev);
    } else {
        lemma_event_over_len(ents.drop_last(), svgs, ev);
    }
}

/// Law: once an SVG is modified, every entity that shows it holds the SVG's
/// new mesh in each mesh component it has (and gains none it lacks); a
/// different mesh it held before is listed for removal; the entity's SVGs
/// and materials stay, and no entity is despawned.
pub proof fn law_modified_svg_mesh(ents: Seq<SvgEntity>, svgs: Seq<LoadedSvg>, id: u64, m: u64, i: int)
    requires
        mesh_of(svgs, id) == Some(m),
        0 <= i < ents.len(),
        shows(ents[i], id),
    ensures
        ents[i].mesh_2d is Some ==> event_over(ents, svgs, SvgAssetEvent::Modified(id)).0[i].mesh_2d == Some(m),
        ents[i].mesh_2d is None ==> event_over(ents, svgs, SvgAssetEvent::Modified(id)).0[i].mesh_2d is None,
        ents[i].mesh_3d is Some ==> event_over(ents, svgs, SvgAssetEvent::Modified(id)).0[i].mesh_3d == Some(m),
        ents[i].mesh_3d is None ==> event_over(ents, svgs, SvgAssetEvent::Modified(id)).0[i].mesh_3d is None,
        event_over(ents, svgs, SvgAssetEvent::Modified(id)).0[i].material_2d == ents[i].material_2d,
        event_over(ents, svgs, SvgAssetEvent::Modified(id)).0[i].material_3d == ents[i].material_3d,
        event_over(ents, svgs, SvgAssetEvent::Modified(id)).0[i].svg_2d == ents[i].svg_2d,
        event_over(ents, svgs, SvgAssetEvent::Modified(id)).0[i].svg_3d == ents[i].svg_3d,
        ents[i].mesh_2d is Some && ents[i].mesh_2d.unwrap() != m
            ==> event_over(ents, svgs, SvgAssetEvent::Modified(id)).1.contains(ents[i].mesh_2d.unwrap()),
        ents[i].mesh_3d is Some && ents[i].mesh_3d.unwrap() != m
            ==> event_over(ents, svgs, SvgAssetEvent::Modified(id)).1.contains(ents[i].mesh_3d.unwrap()),
        event_over(ents, svgs, SvgAssetEvent::Modified(id)).2.len() == 0,
    decreases ents.len(),
{
    let ev = SvgAssetEvent::Modified(id);
    lemma_event_over_len(ents.drop_last(), svgs, ev);
    lemma_modified_despawns_none(ents, svgs, id);
    let (a, r, d) = event_over(ents.drop_last(), svgs, ev);
    let (e, r2, d2) = entity_event(ents.last(), svgs, ev);
    assert(event_over(ents, svgs, ev).1 == r + r2);
    if i < ents.len() - 1 {
        assert(ents.drop_last()[i] == ents[i]);
        law_modified_svg_mesh(ents.drop_last(), svgs, id, m, i);
        assert(a.push(e)[i] == a[i]);
        if ents[i].mesh_2d is Some && ents[i].mesh_2d.unwrap() != m {
            let prev_mesh = ents[i].mesh_2d.unwrap();
            let k = choose|k: int| 0 <= k < r.len() && r[k] == prev_mesh;
            assert((r + r2)[k] == prev_mesh);
        }
        if ents[i].mesh_3d is Some && ents[i].mesh_3d.unwrap() != m {
            let prev_mesh = ents[i].mesh_3d.unwrap();
            let k = choose|k: int| 0 <= k < r.len() && r[k] == prev_mesh;
            assert((r + r2)[k] == prev_mesh);
        }
    } else {
        let r2a = replaced(ents[i].mesh_2d, m);
        let r2b = replaced(ents[i].mesh_3d, m);
        assert(r2 == r2a + r2b);
        if ents[i].mesh_2d is Some && ents[i].mesh_2d.unwrap() != m {
            let prev_mesh = ents[i].mesh_2d.unwrap();
            assert((r + r2)[r.len() as int] == prev_mesh);
        }
        if ents[i].mesh_3d is Some && ents[i].mesh_3d.unwrap() != m {
            let prev_mesh = ents[i].mesh_3d.unwrap();
            assert((r + r2)[r.len() + r2a.len() as int] == prev_mesh);
        }
    }
}

/// Law: the events are applied one after the other: the outcome of a list of
/// events that starts with `ev` is the outcome of `ev` over all entities,
/// followed by that of the remaining events on the entities `ev` left.
pub proof fn law_events_in_order(ents: Seq<SvgEntity>, svgs: Seq<LoadedSvg>, ev: SvgAssetEvent, rest: Seq<SvgAssetEvent>)
    ensures
        events_over(ents, svgs, seq![ev] + rest).0 == events_over(event_over(ents, svgs, ev).0, svgs, rest).0,
        events_over(ents, svgs, seq![ev] + rest).1
            == event_over(ents, svgs, ev).1 + events_over(event_over(ents, svgs, ev).0, svgs, rest).1,
        events_over(ents, svgs, seq![ev] + rest).2
            == event_over(ents, svgs, ev).2 + events_over(event_over(ents, svgs, ev).0, svgs, rest).2,
        events_over(ents, svgs, seq![ev]) == event_over(ents, svgs, ev),
{
    let evs = seq![ev] + rest;
    assert(evs[0] == ev);
    assert(evs.drop_first() =~= rest);
    let one = seq![ev];
    assert(one.drop_first() =~= Seq::<SvgAssetEvent>::empty());
    assert(one[0] == ev);
    let (a, r, d) = event_over(ents, svgs, ev);
    assert(events_over(a, svgs, one.drop_first()) == (a, Seq::<u64>::empty(), Seq::<u64>::empty()));
    assert(events_over(ents, svgs, one) == (a, r + Seq::<u64>::empty(), d + Seq::<u64>::empty()));
    assert(r + Seq::<u64>::empty() =~= r);
    assert(d + Seq::<u64>::empty() =~= d);
}

proof fn lemma_event_over_at(ents: Seq<SvgEntity>, svgs: Seq<LoadedSvg>, ev: SvgAssetEvent, i: int)
    requires
        0 <= i < ents.len(),
    ensures
        event_over(ents, svgs, ev).0.len() == ents.len(),
        event_over(ents, svgs, ev).0[i] == entity_event(ents[i], svgs, ev).0,
        forall|k: int| 0 <= k < entity_event(ents[i], svgs, ev).1.len()
            ==> event_over(ents, svgs, ev).1.contains(#[trigger] entity_event(ents[i], svgs, ev).1[k]),
        forall|k: int| 0 <= k < entity_event(ents[i], svgs, ev).2.len()
            ==> event_over(ents, svgs, ev).2.contains(#[trigger] entity_event(ents[i], svgs, ev).2[k]),
    decreases ents.len(),
{
    lemma_event_over_len(ents.drop_last(), svgs, ev);
    let (a, r, d) = event_over(ents.drop_last(), svgs, ev);
    let (e, r2, d2) = entity_event(ents.last(), svgs, ev);
    if i < ents.len() - 1 {
        assert(ents.drop_last()[i] == ents[i]);
        lemma_event_over_at(ents.drop_last(), svgs, ev, i);
        assert(a.push(e)[i] == a[i]);
        assert forall|k: int| 0 <= k < entity_event(ents[i], svgs, ev).1.len()
            implies (r + r2).contains(#[trigger] entity_event(ents[i], svgs, ev).1[k]) by {
            let x = entity_event(ents[i], svgs, ev).1[k];
            assert(r.contains(x));
            let w = choose|w: int| 0 <= w < r.len() && r[w] == x;
            assert((r + r2)[w] == x);
        }
        assert forall|k: int| 0 <= k < entity_event(ents[i], svgs, ev).2.len()
            implies (d + d2).contains(#[trigger] entity_event(ents[i], svgs, ev).2[k]) by {
            let x = entity_event(ents[i], svgs, ev).2[k];
            assert(d.contains(x));
            let w = choose|w: int| 0 <= w < d.len() && d[w] == x;
            assert((d + d2)[w] == x);
        }
    } else {
        assert forall|k: int| 0 <= k < r2.len() implies (r + r2).contains(#[trigger] r2[k]) by {
            assert((r + r2)[r.len() + k] == r2[k]);
        }
        assert forall|k: int| 0 <= k < d2.len() implies (d + d2).contains(#[trigger] d2[k]) by {
            assert((d + d2)[d.len() + k] == d2[k]);
        }
    }
}

/// Law: once an SVG is removed, every entity that shows it is despawned;
/// no entity changes and no mesh is removed.
pub proof fn law_removed_svg_despawns(ents: Seq<SvgEntity>, svgs: Seq<LoadedSvg>, id: u64, i: int)
    requires
        0 <= i < ents.len(),
    ensures
        shows(ents[i], id) ==> event_over(ents, svgs, SvgAssetEvent::Removed(id)).2.contains(ents[i].entity),
        event_over(ents, svgs, SvgAssetEvent::Removed(id)).0[i] == ents[i],
        event_over(ents, svgs, SvgAssetEvent::Removed(id)).1.len() == 0,
{
    let ev = SvgAssetEvent::Removed(id);
    lemma_event_over_at(ents, svgs, ev, i);
    lemma_nothing_removed(ents, svgs, ev);
    if shows(ents[i], id) {
        assert(entity_event(ents[i], svgs, ev).2[0] == ents[i].entity);
    }
}

/// Law: an event about an SVG that an entity does not show leaves that
/// entity as it is; `Added` and `Unused` events change nothing at all.
pub proof fn law_unrelated_events(ents: Seq<SvgEntity>, svgs: Seq<LoadedSvg>, ev: SvgAssetEvent, i: int)
    requires
        0 <= i < ents.len(),
    ensures
        (ev matches SvgAssetEvent::LoadedWithDependencies(id) && !shows(ents[i], id))
            ==> event_over(ents, svgs, ev).0[i] == ents[i],
        (ev matches SvgAssetEvent::Modified(id) && !shows(ents[i], id))
            ==> event_over(ents, svgs, ev).0[i] == ents[i],
        (ev is Added || ev is Unused) ==> event_over(ents, svgs, ev).0[i] == ents[i]
            && event_over(ents, svgs, ev).1.len() == 0 && event_over(ents, svgs, ev).2.len() == 0,
{
    lemma_event_over_at(ents, svgs, ev, i);
    if ev is Added || ev is Unused {
        lemma_nothing_removed(ents, svgs, ev);
    }
}

/// Law: once an SVG has loaded, every entity that shows it in a dimension
/// and has a material component there uses that SVG as the material; the
/// SVGs it shows stay.
pub proof fn law_loaded_svg_material(ents: Seq<SvgEntity>, svgs: Seq<LoadedSvg>, id: u64, m: u64, i: int)
    requires
        mesh_of(svgs, id) == Some(m),
        0 <= i < ents.len(),
        shows(ents[i], id),
    ensures
        ents[i].svg_2d is Some && ents[i].material_2d is Some
            ==> event_over(ents, svgs, SvgAssetEvent::LoadedWithDependencies(id)).0[i].material_2d == ents[i].svg_2d,
        ents[i].svg_3d is Some && ents[i].material_3d is Some
            ==> event_over(ents, svgs, SvgAssetEvent::LoadedWithDependencies(id)).0[i].material_3d == ents[i].svg_3d,
        ents[i].material_2d is None
            ==> event_over(ents, svgs, SvgAssetEvent::LoadedWithDependencies(id)).0[i].material_2d is None,
        ents[i].material_3d is None
            ==> event_over(ents, svgs, SvgAssetEvent::LoadedWithDependencies(id)).0[i].material_3d is None,
        event_over(ents, svgs, SvgAssetEvent::LoadedWithDependencies(id)).0[i].svg_2d == ents[i].svg_2d,
        event_over(ents, svgs, SvgAssetEvent::LoadedWithDependencies(id)).0[i].svg_3d == ents[i].svg_3d,
{
    lemma_event_over_at(ents, svgs, SvgAssetEvent::LoadedWithDependencies(id), i);
}

proof fn lemma_nothing_removed(ents: Seq<SvgEntity>, svgs: Seq<LoadedSvg>, ev: SvgAssetEvent)
    requires
        !(ev is Modified),
    ensures
        event_over(ents, svgs, ev).1.len() == 0,
        !(ev is Removed) ==> event_over(ents, svgs, ev).2.len() == 0,
    decreases ents.len(),
{
    if ents.len() > 0 {
        lemma_nothing_removed(ents.drop_last(), svgs, ev);
    }
}

proof fn lemma_modified_despawns_none(ents: Seq<SvgEntity>, svgs: Seq<LoadedSvg>, id: u64)
    ensures
        event_over(ents, svgs, SvgAssetEvent::Modified(id)).2.len() == 0,
    decreases ents.len(),
{
    if ents.len() > 0 {
        lemma_modified_despawns_none(ents.drop_last(), svgs, id);
    }
}

proof fn lemma_event_over_len(ents: Seq<SvgEntity>, svgs: Seq<LoadedSvg>, ev: SvgAssetEvent)
    ensures
        event_over(ents, svgs, ev).0.len() == ents.len(),
    decreases ents.len(),
{
    if ents.len() > 0 {
        lemma_event_over_len(ents.drop_last(), svgs, ev);
    }
}

} // verus!
