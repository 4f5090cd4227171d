use foxlite::state::{
    label_for, step, BrowserState, Tab, CLOSED_CAP, DEFAULT_CHROME_HEIGHT, NATURAL_ZOOM,
};

fn tab(id: usize) -> Tab {
    Tab {
        id,
        url: format!("https://{id}.example/"),
        title: String::new(),
        loading: false,
        incognito: false,
        zoom: 1.0f64.to_bits(),
        discarded: false,
        page: String::new(),
        favicon: String::new(),
        can_back: false,
        can_forward: false,
        last_active: None,
    }
}

fn state(n: usize) -> BrowserState {
    let mut s = BrowserState::new();
    for _ in 0..n {
        let id = s.allocate_id();
        s.tabs.push(tab(id));
    }
    s
}

#[test]
fn remove_active_selects_right_neighbour_or_last() {
    let mut s = state(3);
    s.active = 1;
    s.remove(1, 10);
    assert_eq!(s.active, 1);
    assert_eq!(s.active_tab().unwrap().id, 2);
    s.remove(2, 11);
    assert_eq!(s.active, 0);
    assert_eq!(s.active_tab().unwrap().id, 0);
}

#[test]
fn remove_left_of_active_keeps_active_tab() {
    let mut s = state(3);
    s.active = 2;
    s.remove(0, 10);
    assert_eq!(s.active_tab().unwrap().id, 2);
}

#[test]
fn move_preserves_active() {
    let mut s = state(4);
    s.active = 3;
    assert!(s.move_tab(3, 0));
    assert_eq!(s.active, 0);
    assert_eq!(
        s.tabs.iter().map(|t| t.id).collect::<Vec<_>>(),
        [3, 0, 1, 2]
    );
    assert!(!s.move_tab(3, 0));
    assert!(s.move_tab(0, 99)); // clamped to last
    assert_eq!(s.tabs.last().unwrap().id, 0);
}

#[test]
fn closed_tabs_are_capped_and_skip_incognito() {
    let mut s = state(0);
    let mut t = tab(1);
    t.incognito = true;
    s.remember_closed(&t);
    assert!(s.recently_closed.is_empty());
    for i in 0..CLOSED_CAP + 5 {
        s.remember_closed(&tab(i));
    }
    assert_eq!(s.recently_closed.len(), CLOSED_CAP);
}

#[test]
fn constants_are_the_documented_numbers() {
    assert_eq!(f64::from_bits(DEFAULT_CHROME_HEIGHT), 88.0);
    assert_eq!(f64::from_bits(NATURAL_ZOOM), 1.0);
}

#[test]
fn fresh_state() {
    let s = BrowserState::new();
    assert!(s.active_tab().is_none());
    assert!(s.can_allocate());
    assert_eq!(s.chrome_height, DEFAULT_CHROME_HEIGHT);
    assert!(s.mru_order().is_empty());
}

#[test]
fn labels_and_lookups() {
    assert_eq!(label_for(0), "tab-0");
    assert_eq!(label_for(120), "tab-120");
    let mut s = state(2);
    assert_eq!(s.tab(1).unwrap().label(), "tab-1");
    assert_eq!(s.index_of(1), Some(1));
    assert_eq!(s.index_of(9), None);
    s.tab_mut(1).unwrap().title = "x".to_string();
    assert_eq!(s.tabs[1].title, "x");
    assert!(s.tab_mut(9).is_none());
    assert!(!s.tabs[0].is_internal());
}

#[test]
fn activation_sets_both_idle_clocks() {
    let mut s = state(3);
    assert_eq!(s.activate(2, 77), Some(2));
    assert_eq!(s.active, 2);
    assert_eq!(s.tabs[0].last_active, Some(77));
    assert_eq!(s.tabs[2].last_active, Some(77));
    assert_eq!(s.tabs[1].last_active, None);
    assert_eq!(s.activate(9, 78), None);
    assert_eq!(s.active, 2);
}

#[test]
fn use_order_is_most_recent_first() {
    let mut s = state(4);
    s.activate(0, 1);
    s.activate(2, 2);
    s.activate(1, 3);
    assert_eq!(s.mru_order(), [1, 2, 0, 3]);
    s.remove(2, 4);
    assert_eq!(s.mru_order(), [1, 0, 3]);
}

#[test]
fn switcher_opens_on_the_previous_tab_and_wraps() {
    let mut s = state(3);
    s.activate(0, 1);
    s.activate(1, 2);
    s.activate(2, 3);
    assert_eq!(s.switcher_step(1).unwrap().selected_id(), Some(1));
    assert_eq!(s.switcher_step(1).unwrap().selected_id(), Some(0));
    assert_eq!(s.switcher_step(1).unwrap().selected_id(), Some(2));
    assert_eq!(s.switcher_step(-1).unwrap().selected_id(), Some(0));
    let mut one = state(1);
    assert!(one.switcher_step(1).is_none());
}

#[test]
fn steps_go_round() {
    assert_eq!(step(0, -1, 3), 2);
    assert_eq!(step(2, 1, 3), 0);
    assert_eq!(step(1, 7, 3), 2);
    assert_eq!(step(step(1, -5, 4), 5, 4), 1);
}
