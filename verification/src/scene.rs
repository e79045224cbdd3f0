use vstd::prelude::*;

use crate::entity::{entry_ids, removed, data_of, EntityId, EntityMap};

verus! {

/// The entries after removing each of `ids` in turn.
pub open spec fn remove_all<T>(s: Seq<(EntityId, T)>, ids: Seq<EntityId>) -> Seq<(EntityId, T)>
    decreases ids.len(),
{
    if ids.len() == 0 {
        s
    } else {
        removed(remove_all(s, ids.drop_last()), ids.last())
    }
}

/// The data removed when removing each of `ids` in turn, in order.
pub open spec fn removed_data<T>(s: Seq<(EntityId, T)>, ids: Seq<EntityId>) -> Seq<T>
    decreases ids.len(),
{
    if ids.len() == 0 {
        Seq::empty()
    } else {
        removed_data(s, ids.drop_last()).push(data_of(remove_all(s, ids.drop_last()), ids.last()))
    }
}

/// Whether each of `ids` is present when its turn to be removed comes.
pub open spec fn remove_all_ok<T>(s: Seq<(EntityId, T)>, ids: Seq<EntityId>) -> bool
    decreases ids.len(),
{
    ids.len() == 0 || (remove_all_ok(s, ids.drop_last()) && entry_ids(remove_all(s, ids.drop_last())).contains(
        ids.last(),
    ))
}

/// The entries after giving each entity of `renames` its new identifier in
/// turn: its entry is removed and added again at the end under the new one.
pub open spec fn rename_all<T>(s: Seq<(EntityId, T)>, renames: Seq<(EntityId, EntityId)>) -> Seq<(EntityId, T)>
    decreases renames.len(),
{
    if renames.len() == 0 {
        s
    } else {
        let t = rename_all(s, renames.drop_last());
        let (a, b) = renames.last();
        removed(t, a).push((b, data_of(t, a)))
    }
}

/// Whether each renamed entity is present when its turn comes.
pub open spec fn rename_all_ok<T>(s: Seq<(EntityId, T)>, renames: Seq<(EntityId, EntityId)>) -> bool
    decreases renames.len(),
{
    renames.len() == 0 || (rename_all_ok(s, renames.drop_last()) && entry_ids(
        rename_all(s, renames.drop_last()),
    ).contains(renames.last().0))
}

/// What the last rename of a frame does to the scene (law): where each
/// entity has one entry, an entity renamed to an identifier not in use (or to
/// its own) is found under its new identifier with the data it had, is no
/// longer found under the old one, and every other entity keeps its data.
pub proof fn law_rename_all_last<T>(s: Seq<(EntityId, T)>, renames: Seq<(EntityId, EntityId)>, other: EntityId)
    requires
        renames.len() > 0,
        entry_ids(rename_all(s, renames.drop_last())).no_duplicates(),
        entry_ids(rename_all(s, renames.drop_last())).contains(renames.last().0),
        renames.last().1 == renames.last().0 || !entry_ids(rename_all(s, renames.drop_last())).contains(
            renames.last().1,
        ),
    ensures
        ({
            let t = rename_all(s, renames.drop_last());
            let (a, b) = renames.last();
            let r = rename_all(s, renames);
            &&& crate::entity::first_index(entry_ids(r), b) matches Some(k)
            &&& 0 <= k < r.len()
            &&& r[k].1 == t[crate::entity::first_index(entry_ids(t), a)->0].1
            &&& entry_ids(r).no_duplicates()
            &&& a != b ==> !entry_ids(r).contains(a)
            &&& other != a && other != b && entry_ids(t).contains(other) ==> data_of(r, other) == data_of(t, other)
        }),
{
    let t = rename_all(s, renames.drop_last());
    let (a, b) = renames.last();
    assert(rename_all(s, renames) == removed(t, a).push((b, data_of(t, a))));
    crate::entity::law_lookup_after_rename(t, a, b, other);
}

/// What the last removal of a frame does to the scene (law): where each
/// entity has one entry, the removed entity is no longer found, and every
/// other entity is found exactly when it was before, with the same data.
pub proof fn law_remove_all_last<T>(s: Seq<(EntityId, T)>, ids: Seq<EntityId>, other: EntityId)
    requires
        ids.len() > 0,
        entry_ids(remove_all(s, ids.drop_last())).no_duplicates(),
        entry_ids(remove_all(s, ids.drop_last())).contains(ids.last()),
    ensures
        ({
            let t = remove_all(s, ids.drop_last());
            let r = remove_all(s, ids);
            &&& !entry_ids(r).contains(ids.last())
            &&& entry_ids(r).no_duplicates()
            &&& other != ids.last() ==> entry_ids(r).contains(other) == entry_ids(t).contains(other)
            &&& other != ids.last() && entry_ids(t).contains(other) ==> data_of(r, other) == data_of(t, other)
            &&& removed_data(s, ids).last() == data_of(t, ids.last())
        }),
{
    crate::entity::law_lookup_after_remove(remove_all(s, ids.drop_last()), ids.last(), other);
}

/// Removes the despawned entities from the scene, in order, and returns the
/// data of each, to be released. Stops at the first entity that is not in
/// the scene and returns its position, having removed those before it.
pub fn remove_despawned<T>(meshes: &mut EntityMap<T>, despawned: &[EntityId]) -> (r: Result<Vec<T>, usize>)
    requires
        old(meshes).wf(),
    ensures
        final(meshes).wf(),
        ({
            let n = match r {
                Ok(_) => despawned@.len() as int,
                Err(i) => i as int,
            };
            &&& 0 <= n <= despawned@.len()
            &&& remove_all_ok(old(meshes)@, despawned@.take(n))
            &&& final(meshes)@ == remove_all(old(meshes)@, despawned@.take(n))
            &&& (r matches Ok(v) ==> v@ == removed_data(old(meshes)@, despawned@))
            &&& (r matches Err(i) ==> i < despawned@.len() && !entry_ids(final(meshes)@).contains(
                despawned@[i as int],
            ))
        }),
{
    let ghost s0 = meshes@;
    let mut out: Vec<T> = Vec::new();
    let mut i: usize = 0;
    while i < despawned.len()
        invariant
            i <= despawned@.len(),
            s0 == old(meshes)@,
            meshes.wf(),
            remove_all_ok(s0, despawned@.take(i as int)),
            meshes@ == remove_all(s0, despawned@.take(i as int)),
            out@ == removed_data(s0, despawned@.take(i as int)),
        decreases despawned@.len() - i,
    {
        let id = despawned[i];
        proof {
            assert(despawned@.take(i + 1).drop_last() =~= despawned@.take(i as int));
            assert(despawned@.take(i + 1).last() == id);
        }
        if meshes.index(id).is_none() {
            proof {
                meshes.lemma_position(id);
            }
            return Err(i);
        }
        proof {
            meshes.lemma_position(id);
        }
        let data = meshes.remove(id);
        out.push(data);
        i = i + 1;
    }
    assert(despawned@.take(despawned@.len() as int) =~= despawned@);
    Ok(out)
}

/// Gives each renamed entity of the scene its new identifier, in order.
/// Stops at the first entity that is not in the scene and returns its
/// position, having renamed those before it.
pub fn rename_entities<T>(meshes: &mut EntityMap<T>, renames: &[(EntityId, EntityId)]) -> (r: Result<(), usize>)
    requires
        old(meshes).wf(),
    ensures
        final(meshes).wf(),
        ({
            let n = match r {
                Ok(_) => renames@.len() as int,
                Err(i) => i as int,
            };
            &&& 0 <= n <= renames@.len()
            &&& rename_all_ok(old(meshes)@, renames@.take(n))
            &&& final(meshes)@ == rename_all(old(meshes)@, renames@.take(n))
            &&& (r matches Err(i) ==> i < renames@.len() && !entry_ids(final(meshes)@).contains(
                renames@[i as int].0,
            ))
        }),
{
    let ghost s0 = meshes@;
    let mut i: usize = 0;
    while i < renames.len()
        invariant
            i <= renames@.len(),
            s0 == old(meshes)@,
            meshes.wf(),
            rename_all_ok(s0, renames@.take(i as int)),
            meshes@ == rename_all(s0, renames@.take(i as int)),
        decreases renames@.len() - i,
    {
        let (a, b) = renames[i];
        proof {
            assert(renames@.take(i + 1).drop_last() =~= renames@.take(i as int));
            assert(renames@.take(i + 1).last() == (a, b));
        }
        if meshes.index(a).is_none() {
            proof {
                meshes.lemma_position(a);
            }
            return Err(i);
        }
        proof {
            meshes.lemma_position(a);
        }
        let data = meshes.remove(a);
        meshes.insert(b, data);
        i = i + 1;
    }
    assert(renames@.take(renames@.len() as int) =~= renames@);
    Ok(())
}


/// The entries after setting, for each of `moves` in turn, the transform (the
/// second part of the data) of the entity it names.
pub open spec fn transform_all<B, M>(s: Seq<(EntityId, (B, M))>, moves: Seq<(EntityId, M)>) -> Seq<(EntityId, (B, M))>
    decreases moves.len(),
{
    if moves.len() == 0 {
        s
    } else {
        let t = transform_all(s, moves.drop_last());
        let (id, m) = moves.last();
        crate::entity::with_data(t, id, (data_of(t, id).0, m))
    }
}

/// What the last move of a frame does to the scene (law): the moved entity is
/// found with its buffers as they were and its new transform, and every other
/// entity keeps its data.
pub proof fn law_transform_all_last<B, M>(s: Seq<(EntityId, (B, M))>, moves: Seq<(EntityId, M)>, other: EntityId)
    requires
        moves.len() > 0,
        entry_ids(transform_all(s, moves.drop_last())).contains(moves.last().0),
    ensures
        ({
            let t = transform_all(s, moves.drop_last());
            let (id, m) = moves.last();
            let r = transform_all(s, moves);
            &&& entry_ids(r) == entry_ids(t)
            &&& crate::entity::first_index(entry_ids(r), id) matches Some(k)
            &&& 0 <= k < r.len()
            &&& r[k].1 == (t[k].1.0, m)
            &&& other != id && entry_ids(t).contains(other) ==> data_of(r, other) == data_of(t, other)
        }),
{
    let t = transform_all(s, moves.drop_last());
    let (id, m) = moves.last();
    let r = transform_all(s, moves);
    let ids = entry_ids(t);
    crate::entity::lemma_first_index(ids, id);
    crate::entity::lemma_first_index(ids, other);
    assert(entry_ids(r) =~= ids);
    if other != id && ids.contains(other) {
        let q = crate::entity::first_index(ids, other)->0;
        let k = crate::entity::first_index(ids, id)->0;
        assert(q != k);
        assert(r[q] == t[q]);
    }
}

/// Whether each moved entity is present when its turn comes.
pub open spec fn transform_all_ok<B, M>(s: Seq<(EntityId, (B, M))>, moves: Seq<(EntityId, M)>) -> bool
    decreases moves.len(),
{
    moves.len() == 0 || (transform_all_ok(s, moves.drop_last()) && entry_ids(transform_all(s, moves.drop_last())).contains(
        moves.last().0,
    ))
}

/// Gives each moved entity of the scene its new transform, in order, keeping
/// its buffers. Stops at the first entity that is not in the scene and
/// returns its position, having moved those before it.
pub fn set_transforms<B, M: Copy>(meshes: &mut EntityMap<(B, M)>, moves: &[(EntityId, M)]) -> (r: Result<(), usize>)
    requires
        old(meshes).wf(),
    ensures
        final(meshes).wf(),
        ({
            let n = match r {
                Ok(_) => moves@.len() as int,
                Err(i) => i as int,
            };
            &&& 0 <= n <= moves@.len()
            &&& transform_all_ok(old(meshes)@, moves@.take(n))
            &&& final(meshes)@ == transform_all(old(meshes)@, moves@.take(n))
            &&& (r matches Err(i) ==> i < moves@.len() && !entry_ids(final(meshes)@).contains(moves@[i as int].0))
        }),
{
    let ghost s0 = meshes@;
    let mut i: usize = 0;
    while i < moves.len()
        invariant
            i <= moves@.len(),
            s0 == old(meshes)@,
            meshes.wf(),
            transform_all_ok(s0, moves@.take(i as int)),
            meshes@ == transform_all(s0, moves@.take(i as int)),
        decreases moves@.len() - i,
    {
        let (id, m) = moves[i];
        proof {
            assert(moves@.take(i + 1).drop_last() =~= moves@.take(i as int));
            assert(moves@.take(i + 1).last() == (id, m));
        }
        if meshes.index(id).is_none() {
            proof {
                meshes.lemma_position(id);
            }
            return Err(i);
        }
        proof {
            meshes.lemma_position(id);
        }
        let entry = meshes.at_mut(id);
        entry.1 = m;
        i = i + 1;
    }
    assert(moves@.take(moves@.len() as int) =~= moves@);
    Ok(())
}


/// Once an entity is missing at its turn to be removed, the removals as a
/// whole cannot be made.
proof fn lemma_remove_all_fails<T>(s: Seq<(EntityId, T)>, ids: Seq<EntityId>, i: int)
    requires
        0 <= i < ids.len(),
        !entry_ids(remove_all(s, ids.take(i))).contains(ids[i]),
    ensures
        !remove_all_ok(s, ids),
    decreases ids.len(),
{
    if i < ids.len() - 1 {
        assert(ids.drop_last().take(i) =~= ids.take(i));
        lemma_remove_all_fails(s, ids.drop_last(), i);
    } else {
        assert(ids.drop_last() =~= ids.take(i));
    }
}

/// Once a renamed entity is missing at its turn, the renames as a whole
/// cannot be made.
proof fn lemma_rename_all_fails<T>(s: Seq<(EntityId, T)>, rs: Seq<(EntityId, EntityId)>, i: int)
    requires
        0 <= i < rs.len(),
        !entry_ids(rename_all(s, rs.take(i))).contains(rs[i].0),
    ensures
        !rename_all_ok(s, rs),
    decreases rs.len(),
{
    if i < rs.len() - 1 {
        assert(rs.drop_last().take(i) =~= rs.take(i));
        lemma_rename_all_fails(s, rs.drop_last(), i);
    } else {
        assert(rs.drop_last() =~= rs.take(i));
    }
}

/// Once a moved entity is missing at its turn, the moves as a whole cannot
/// be made.
proof fn lemma_transform_all_fails<B, M>(s: Seq<(EntityId, (B, M))>, ms: Seq<(EntityId, M)>, i: int)
    requires
        0 <= i < ms.len(),
        !entry_ids(transform_all(s, ms.take(i))).contains(ms[i].0),
    ensures
        !transform_all_ok(s, ms),
    decreases ms.len(),
{
    if i < ms.len() - 1 {
        assert(ms.drop_last().take(i) =~= ms.take(i));
        lemma_transform_all_fails(s, ms.drop_last(), i);
    } else {
        assert(ms.drop_last() =~= ms.take(i));
    }
}

/// A step of the scene update that found an entity missing, by its position
/// among that step's entities.
#[derive(Clone, Copy, PartialEq, Eq, Structural, Debug)]
pub enum SceneError {
    Despawned(usize),
    Renamed(usize),
    Moved(usize),
}

/// The scene update of a frame, in the renderer's order: the despawned
/// entities are removed and their data returned, to be released; renamed
/// entities take their new identifiers; the spawned entities, with the data
/// made for them, are added in order; and the moved entities get their new
/// transforms. Fails at the first step that finds an entity missing.
pub fn update_scene<B, M: Copy>(
    meshes: &mut EntityMap<(B, M)>,
    despawned: &[EntityId],
    renames: &[(EntityId, EntityId)],
    spawned: Vec<(EntityId, (B, M))>,
    moves: &[(EntityId, M)],
) -> (r: Result<Vec<(B, M)>, SceneError>)
    requires
        old(meshes).wf(),
    ensures
        final(meshes).wf(),
        ({
            let s0 = old(meshes)@;
            let s1 = remove_all(s0, despawned@);
            let s2 = rename_all(s1, renames@);
            let s3 = s2 + spawned@;
            &&& (r is Ok <==> remove_all_ok(s0, despawned@) && rename_all_ok(s1, renames@) && transform_all_ok(
                s3,
                moves@,
            ))
            &&& (r matches Ok(v) ==> v@ == removed_data(s0, despawned@) && final(meshes)@ == transform_all(
                s3,
                moves@,
            ))
            &&& (r matches Err(SceneError::Despawned(i)) ==> i < despawned@.len() && remove_all_ok(
                s0,
                despawned@.take(i as int),
            ) && !entry_ids(remove_all(s0, despawned@.take(i as int))).contains(despawned@[i as int]))
            &&& (r matches Err(SceneError::Renamed(i)) ==> i < renames@.len() && rename_all_ok(
                s1,
                renames@.take(i as int),
            ) && !entry_ids(rename_all(s1, renames@.take(i as int))).contains(renames@[i as int].0))
            &&& (r matches Err(SceneError::Moved(i)) ==> i < moves@.len() && transform_all_ok(
                s3,
                moves@.take(i as int),
            ) && !entry_ids(transform_all(s3, moves@.take(i as int))).contains(moves@[i as int].0))
        }),
{
    let ghost s0 = meshes@;
    let released = match remove_despawned(meshes, despawned) {
        Ok(v) => v,
        Err(i) => {
            proof {
                lemma_remove_all_fails(s0, despawned@, i as int);
            }
            return Err(SceneError::Despawned(i));
        },
    };
    assert(despawned@.take(despawned@.len() as int) =~= despawned@);
    let ghost s1 = meshes@;
    match rename_entities(meshes, renames) {
        Ok(()) => {},
        Err(i) => {
            proof {
                lemma_rename_all_fails(s1, renames@, i as int);
            }
            return Err(SceneError::Renamed(i));
        },
    }
    assert(renames@.take(renames@.len() as int) =~= renames@);
    let ghost s2 = meshes@;
    meshes.extend(spawned);
    let ghost s3 = meshes@;
    match set_transforms(meshes, moves) {
        Ok(()) => {},
        Err(i) => {
            proof {
                lemma_transform_all_fails(s3, moves@, i as int);
            }
            return Err(SceneError::Moved(i));
        },
    }
    assert(moves@.take(moves@.len() as int) =~= moves@);
    Ok(released)
}


/// The entries without `id`'s entry, if it has one.
pub open spec fn without_entry<T>(s: Seq<(EntityId, T)>, id: EntityId) -> Seq<(EntityId, T)> {
    if entry_ids(s).contains(id) {
        removed(s, id)
    } else {
        s
    }
}

/// The entries after removing, for each of `ids` in turn, its entry if it has one.
pub open spec fn remove_present<T>(s: Seq<(EntityId, T)>, ids: Seq<EntityId>) -> Seq<(EntityId, T)>
    decreases ids.len(),
{
    if ids.len() == 0 {
        s
    } else {
        without_entry(remove_present(s, ids.drop_last()), ids.last())
    }
}

/// The entries after adding each of `added` in turn, in place of any entry
/// with the same identifier.
pub open spec fn insert_replacing<T>(s: Seq<(EntityId, T)>, added: Seq<(EntityId, T)>) -> Seq<(EntityId, T)>
    decreases added.len(),
{
    if added.len() == 0 {
        s
    } else {
        let t = insert_replacing(s, added.drop_last());
        without_entry(t, added.last().0).push(added.last())
    }
}

/// The entries after setting, for each of `moves` in turn, the transform of
/// the entity it names, if the entity is there.
pub open spec fn transform_present<B, M>(s: Seq<(EntityId, (B, M))>, moves: Seq<(EntityId, M)>) -> Seq<
    (EntityId, (B, M)),
>
    decreases moves.len(),
{
    if moves.len() == 0 {
        s
    } else {
        let t = transform_present(s, moves.drop_last());
        let (id, m) = moves.last();
        if entry_ids(t).contains(id) {
            crate::entity::with_data(t, id, (data_of(t, id).0, m))
        } else {
            t
        }
    }
}

/// Removes `id`'s entry, if it has one.
fn remove_if_present<T>(meshes: &mut EntityMap<T>, id: EntityId)
    requires
        old(meshes).wf(),
    ensures
        final(meshes).wf(),
        final(meshes)@ == without_entry(old(meshes)@, id),
{
    proof {
        meshes.lemma_position(id);
    }
    if meshes.index(id).is_some() {
        let _ = meshes.remove(id);
    }
}

/// The scene update of a frame in the order of the renderer that keys its
/// meshes by identifier: renamed entities take their new identifiers (the
/// one step that needs its entities); despawned entities are removed if
/// there; spawned entities are added in place of any entry with the same
/// identifier; and moved entities that are there get their new transforms.
/// Fails at the first renamed entity that is missing.
pub fn update_scene_keyed<B, M: Copy>(
    meshes: &mut EntityMap<(B, M)>,
    renames: &[(EntityId, EntityId)],
    despawned: &[EntityId],
    spawned: Vec<(EntityId, (B, M))>,
    moves: &[(EntityId, M)],
) -> (r: Result<(), usize>)
    requires
        old(meshes).wf(),
    ensures
        final(meshes).wf(),
        (r is Ok <==> rename_all_ok(old(meshes)@, renames@)),
        r matches Err(i) ==> i < renames@.len() && rename_all_ok(old(meshes)@, renames@.take(i as int))
            && !entry_ids(rename_all(old(meshes)@, renames@.take(i as int))).contains(renames@[i as int].0),
        r is Ok ==> final(meshes)@ == transform_present(
            insert_replacing(remove_present(rename_all(old(meshes)@, renames@), despawned@), spawned@),
            moves@,
        ),
{
    let ghost s0 = meshes@;
    match rename_entities(meshes, renames) {
        Ok(()) => {},
        Err(i) => {
            proof {
                lemma_rename_all_fails(s0, renames@, i as int);
            }
            return Err(i);
        },
    }
    assert(renames@.take(renames@.len() as int) =~= renames@);
    let ghost s1 = meshes@;
    let mut i: usize = 0;
    while i < despawned.len()
        invariant
            i <= despawned@.len(),
            meshes.wf(),
            meshes@ == remove_present(s1, despawned@.take(i as int)),
        decreases despawned@.len() - i,
    {
        proof {
            assert(despawned@.take(i + 1).drop_last() =~= despawned@.take(i as int));
        }
        remove_if_present(meshes, despawned[i]);
        i = i + 1;
    }
    assert(despawned@.take(despawned@.len() as int) =~= despawned@);
    let ghost s2 = meshes@;
    let ghost all = spawned@;
    let mut rest = spawned;
    let ghost mut done: int = 0;
    assert(all.take(0) =~= Seq::<(EntityId, (B, M))>::empty());
    while rest.len() > 0
        invariant
            0 <= done <= all.len(),
            rest@ == all.subrange(done, all.len() as int),
            meshes.wf(),
            meshes@ == insert_replacing(s2, all.take(done)),
        decreases rest@.len(),
    {
        let e = rest.remove(0);
        proof {
            assert(e == all[done]);
            assert(all.take(done + 1).drop_last() =~= all.take(done));
            assert(all.take(done + 1).last() == all[done]);
            assert(rest@ =~= all.subrange(done + 1, all.len() as int));
        }
        remove_if_present(meshes, e.0);
        meshes.insert(e.0, e.1);
        proof {
            done = done + 1;
        }
    }
    assert(all.take(done) =~= all);
    let ghost s3 = meshes@;
    let mut k: usize = 0;
    while k < moves.len()
        invariant
            k <= moves@.len(),
            meshes.wf(),
            meshes@ == transform_present(s3, moves@.take(k as int)),
        decreases moves@.len() - k,
    {
        let (id, m) = moves[k];
        proof {
            assert(moves@.take(k + 1).drop_last() =~= moves@.take(k as int));
            assert(moves@.take(k + 1).last() == (id, m));
            meshes.lemma_position(id);
        }
        if meshes.index(id).is_some() {
            let entry = meshes.at_mut(id);
            entry.1 = m;
        }
        k = k + 1;
    }
    assert(moves@.take(moves@.len() as int) =~= moves@);
    Ok(())
}

} // verus!
