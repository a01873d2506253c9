use std::collections::BTreeSet;

use mediavert::select::{Cursor, Engine, Input, Outcome, Session};
use mediavert::state::{Book, Catalog, Page, PickTable, State};

fn book(name: &str, sizes: &[u64]) -> Book {
    Book {
        dir: format!("/scans/{name}"),
        name: name.to_string(),
        pages: sizes
            .iter()
            .enumerate()
            .map(|(i, &len)| Page { path: format!("/scans/{name}/{i}"), name: format!("{i}"), len })
            .collect(),
        numbers: BTreeSet::new(),
    }
}

fn catalog(number: u32, n: usize) -> Catalog {
    Catalog {
        number,
        books: (0..n).map(|i| book(&format!("b{i}"), &[1])).collect(),
        picked: None,
    }
}

fn session() -> Session {
    Session::new(vec![catalog(10, 2), catalog(20, 3), catalog(30, 1)])
}

#[test]
fn starts_on_first_candidate_of_first_catalog() {
    let s = session();
    assert_eq!(s.active, Some(0));
    assert_eq!(s.engine.cursor, Cursor::Choice(0));
    assert!(s.table.is_empty());
    assert_eq!(Session::new(Vec::new()).active, None);
}

#[test]
fn moves_within_candidates_saturating() {
    let mut s = session();
    assert_eq!(s.step(Input::Up), None);
    assert_eq!(s.engine.cursor, Cursor::Choice(0));
    s.step(Input::Down);
    assert_eq!(s.engine.cursor, Cursor::Choice(1));
    s.step(Input::Down);
    assert_eq!(s.engine.cursor, Cursor::Choice(1));
}

#[test]
fn confirming_a_choice_records_it_and_advances() {
    let mut s = session();
    s.step(Input::Down);
    assert_eq!(s.step(Input::Confirm), Some(Outcome::Picked(1)));
    assert_eq!(s.table.get(10), Some(1));
    assert_eq!(s.active, Some(1));
    assert_eq!(s.engine.cursor, Cursor::Choice(1));
    assert_eq!(s.step(Input::Confirm), Some(Outcome::Picked(1)));
    assert_eq!(s.table.get(20), Some(1));
    assert_eq!(s.active, Some(2));
    assert_eq!(s.engine.cursor, Cursor::Choice(0));
    assert_eq!(s.step(Input::Confirm), Some(Outcome::Picked(0)));
    assert_eq!(s.active, None);
    assert_eq!(s.table.len(), 3);
}

#[test]
fn review_navigation_crosses_into_resolved_entries() {
    let mut s = session();
    s.step(Input::Confirm);
    s.step(Input::Down);
    s.step(Input::Down);
    assert_eq!(s.engine.cursor, Cursor::Choice(2));
    s.step(Input::Down);
    assert_eq!(s.engine.cursor, Cursor::Picked(10));
    s.step(Input::Down);
    assert_eq!(s.engine.cursor, Cursor::Picked(10));
    s.step(Input::Up);
    assert_eq!(s.engine.cursor, Cursor::Choice(2));
}

#[test]
fn confirming_a_resolved_entry_unpicks_it() {
    let mut s = session();
    s.step(Input::Confirm);
    s.step(Input::Down);
    s.step(Input::Down);
    s.step(Input::Down);
    assert_eq!(s.step(Input::Confirm), Some(Outcome::Unpicked(10)));
    assert_eq!(s.table.get(10), None);
    assert_eq!(s.active, Some(1));
    assert_eq!(s.engine.cursor, Cursor::Choice(2));
    assert_eq!(s.step(Input::Confirm), Some(Outcome::Picked(2)));
    assert_eq!(s.active, Some(0));
}

#[test]
fn quit_changes_nothing() {
    let mut s = session();
    s.step(Input::Down);
    assert_eq!(s.step(Input::Quit), Some(Outcome::Quit));
    assert_eq!(s.active, Some(0));
    assert!(s.table.is_empty());
    assert_eq!(s.engine.cursor, Cursor::Choice(1));
}

#[test]
fn scroll_saturates() {
    let mut s = session();
    s.step(Input::Left);
    assert_eq!(s.engine.scroll_x, 0);
    s.step(Input::Right);
    s.step(Input::Right);
    assert_eq!(s.engine.scroll_x, 8);
    s.step(Input::Left);
    assert_eq!(s.engine.scroll_x, 4);
    assert_eq!(s.engine.cursor, Cursor::Choice(0));
}

#[test]
fn toggles_shown_directories() {
    let mut s = session();
    s.step(Input::Toggle);
    assert_eq!(s.engine.expanded, vec![true, false]);
    s.step(Input::ToggleAll);
    assert_eq!(s.engine.expanded, vec![true, true]);
    s.step(Input::ToggleAll);
    assert_eq!(s.engine.expanded, vec![false, false]);
    assert_eq!(s.engine.cursor, Cursor::Choice(0));
}

#[test]
fn picked_moves_between_resolved_entries_in_number_order() {
    let mut table = PickTable::new();
    table.insert(30, 0);
    table.insert(10, 1);
    table.insert(20, 2);
    let mut e = Engine { cursor: Cursor::Picked(20), scroll_x: 0, expanded: vec![false; 2] };
    e.step(Input::Down, 2, &table);
    assert_eq!(e.cursor, Cursor::Picked(30));
    e.step(Input::Up, 2, &table);
    e.step(Input::Up, 2, &table);
    assert_eq!(e.cursor, Cursor::Picked(10));
    e.step(Input::Up, 2, &table);
    assert_eq!(e.cursor, Cursor::Choice(1));
}

#[test]
fn entering_clamps_the_cursor() {
    let mut table = PickTable::new();
    table.insert(5, 0);
    let mut e = Engine::new(4);
    e.cursor = Cursor::Choice(3);
    e.enter(2, &table);
    assert_eq!(e.cursor, Cursor::Choice(1));
    e.cursor = Cursor::Picked(5);
    e.enter(2, &table);
    assert_eq!(e.cursor, Cursor::Picked(5));
    table.remove(5);
    e.enter(3, &table);
    assert_eq!(e.cursor, Cursor::Choice(2));
    assert_eq!(e.expanded, vec![false; 3]);
}

#[test]
fn pick_table_orders_by_number() {
    let mut t = PickTable::new();
    assert_eq!(t.first(), None);
    t.insert(7, 1);
    t.insert(3, 0);
    t.insert(9, 2);
    t.insert(7, 4);
    assert_eq!(t.len(), 3);
    assert_eq!(t.get(7), Some(4));
    assert_eq!(t.first(), Some(3));
    assert_eq!(t.before(7), Some(3));
    assert_eq!(t.before(3), None);
    assert_eq!(t.after(7), Some(9));
    assert_eq!(t.after(8), Some(9));
    assert_eq!(t.after(9), None);
    t.remove(3);
    t.remove(100);
    assert_eq!(t.first(), Some(7));
    assert_eq!(t.get(3), None);
}

#[test]
fn book_totals_and_keys() {
    let b = book("Atlas", &[10, 20, 30]);
    assert_eq!(b.bytes(), 60);
    assert_eq!(book("Empty", &[]).bytes(), 0);
    assert_eq!(b.key(), ("Atlas", "/scans/Atlas"));
}

#[test]
fn selected_book_and_picked_count() {
    let mut c = catalog(1, 2);
    assert!(c.selected().is_none());
    c.picked = Some(1);
    assert_eq!(c.selected().unwrap().name, "b1");
    c.picked = Some(5);
    assert!(c.selected().is_none());
    let s = State {
        name: None,
        names: BTreeSet::new(),
        catalogs: vec![c, catalog(2, 1), Catalog { picked: Some(0), ..catalog(3, 1) }],
    };
    assert_eq!(s.picked(), 2);
}
