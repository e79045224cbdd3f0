use park_engine::entity::{EntityId, EntityMap, IterMut, ValuesMut};

fn id(v: u32) -> EntityId {
    EntityId::new(v)
}

#[test]
fn entity_id_bounds() {
    assert_eq!(EntityId::min().get(), 1);
    assert_eq!(EntityId::max().get(), u32::MAX);
    let mut a = id(5);
    a.increment();
    assert_eq!(a.get(), 6);
    a.decrement();
    a.decrement();
    assert_eq!(a.get(), 4);
}

#[test]
fn lookup_after_insert_finds_new_data() {
    let mut m: EntityMap<u32> = EntityMap::new();
    m.insert(id(3), 30);
    m.insert(id(7), 70);
    assert_eq!(m.get(id(3)), Some(&30));
    assert_eq!(m.get(id(7)), Some(&70));
    assert_eq!(m.get(id(9)), None);
    assert_eq!(m.len(), 2);
}

#[test]
fn lookup_after_second_insert_finds_first_entry() {
    let mut m: EntityMap<u32> = EntityMap::new();
    m.insert(id(3), 30);
    m.insert(id(3), 31);
    assert_eq!(m.get(id(3)), Some(&30));
    assert_eq!(m.index(id(3)), Some(0));
    assert_eq!(m.len(), 2);
}

#[test]
fn remove_after_insert_restores_entries() {
    let mut m: EntityMap<u32> = EntityMap::new();
    m.insert(id(1), 10);
    m.insert(id(2), 20);
    m.insert(id(4), 40);
    assert_eq!(m.remove(id(4)), 40);
    assert_eq!(m.values(), &[10, 20]);
    assert_eq!(m.get(id(4)), None);
}

#[test]
fn remove_moves_last_entry_into_place() {
    let mut m: EntityMap<u32> = EntityMap::new();
    m.insert(id(1), 10);
    m.insert(id(2), 20);
    m.insert(id(3), 30);
    assert_eq!(m.remove(id(1)), 10);
    assert_eq!(m.values(), &[30, 20]);
    assert_eq!(m.get(id(2)), Some(&20));
    assert_eq!(m.get(id(3)), Some(&30));
    assert_eq!(m.get(id(1)), None);
}

#[test]
fn clear_empties_the_map() {
    let mut m: EntityMap<u32> = EntityMap::new();
    m.insert(id(1), 10);
    m.clear();
    assert_eq!(m.len(), 0);
    assert_eq!(m.get(id(1)), None);
}

#[test]
fn get_mut_and_at_mut_write_through() {
    let mut m: EntityMap<u32> = EntityMap::new();
    m.insert(id(1), 10);
    m.insert(id(2), 20);
    if let Some(v) = m.get_mut(id(2)) {
        *v = 21;
    }
    *m.at_mut(id(1)) += 1;
    assert_eq!(*m.at(id(1)), 11);
    assert_eq!(*m.at(id(2)), 21);
    assert!(m.get_mut(id(3)).is_none());
}

#[test]
fn iter_visits_entries_in_order() {
    let mut m: EntityMap<u32> = EntityMap::new();
    m.insert(id(5), 50);
    m.insert(id(6), 60);
    let mut it = m.iter();
    let mut seen = Vec::new();
    while let Some((e, v)) = it.next() {
        seen.push((e.get(), *v));
    }
    assert_eq!(seen, vec![(5, 50), (6, 60)]);
}

#[test]
fn iter_mut_changes_every_value() {
    let mut m: EntityMap<u32> = EntityMap::new();
    m.insert(id(5), 50);
    m.insert(id(6), 60);
    let mut it: IterMut = m.iter_mut();
    while let Some((_, v)) = it.next(&mut m) {
        *v += 1;
    }
    assert_eq!(m.values(), &[51, 61]);
}

#[test]
fn extend_and_drain() {
    let mut m: EntityMap<u32> = EntityMap::new();
    m.extend(vec![(id(1), 1), (id(2), 2), (id(3), 3), (id(4), 4)]);
    let drained = m.drain(1, 3);
    let drained: Vec<(u32, u32)> = drained.into_iter().map(|(e, v)| (e.get(), v)).collect();
    assert_eq!(drained, vec![(2, 2), (3, 3)]);
    assert_eq!(m.values(), &[1, 4]);
    assert_eq!(m.get(id(4)), Some(&4));
}

#[test]
fn entry_at_and_value_at_mut() {
    let mut m: EntityMap<u32> = EntityMap::new();
    m.insert(id(8), 80);
    let (e, v) = m.entry_at(0);
    assert_eq!((e.get(), *v), (8, 80));
    *m.value_at_mut(0) = 81;
    assert_eq!(m.get(id(8)), Some(&81));
}

#[test]
fn entity_id_to_string_is_decimal() {
    assert_eq!(id(1).to_string(), "1");
    assert_eq!(id(10).to_string(), "10");
    assert_eq!(id(4096).to_string(), "4096");
    assert_eq!(EntityId::max().to_string(), "4294967295");
}

#[test]
fn default_map_is_empty() {
    let m: EntityMap<u8> = EntityMap::default();
    assert_eq!(m.len(), 0);
}

#[test]
fn values_mut_changes_every_value() {
    let mut m: EntityMap<u32> = EntityMap::new();
    m.insert(id(1), 1);
    m.insert(id(2), 2);
    let mut it: ValuesMut = m.values_mut();
    while let Some(v) = it.next(&mut m) {
        *v *= 10;
    }
    assert_eq!(m.values(), &[10, 20]);
}
