use media_ingest::sequencer::{MediaGroupEntry, Sequencer};

fn pair(e: Option<MediaGroupEntry>) -> Option<(String, u32)> {
    e.map(|e| (e.title, e.page_number))
}

#[test]
fn first_call_takes_title_from_the_stem() {
    let mut s = Sequencer::new();
    let e = s.advance("g1", "vacation.mp4");
    assert_eq!(pair(e), Some(("vacation".to_owned(), 1)));
}

#[test]
fn first_call_with_empty_fallback_takes_the_group_id() {
    let mut s = Sequencer::new();
    let e = s.advance("13371337", "");
    assert_eq!(pair(e), Some(("13371337".to_owned(), 1)));
}

#[test]
fn fallback_without_stem_takes_the_group_id() {
    let mut s = Sequencer::new();
    assert_eq!(pair(s.advance("g1", "..")), Some(("g1".to_owned(), 1)));
    assert_eq!(pair(s.advance("g2", "/")), Some(("g2".to_owned(), 1)));
}

#[test]
fn caption_without_dot_is_the_title() {
    let mut s = Sequencer::new();
    assert_eq!(pair(s.advance("g1", "Sunset at sea")), Some(("Sunset at sea".to_owned(), 1)));
}

#[test]
fn title_stays_once_set() {
    let mut s = Sequencer::new();
    assert_eq!(pair(s.advance("g1", "first.jpg")), Some(("first".to_owned(), 1)));
    assert_eq!(pair(s.advance("g1", "second.jpg")), Some(("first".to_owned(), 2)));
    assert_eq!(pair(s.advance("g1", "")), Some(("first".to_owned(), 3)));
}

#[test]
fn pages_count_up_from_one() {
    let mut s = Sequencer::new();
    let mut n: u32 = 1;
    while n <= 500 {
        let e = s.advance("album", "x.jpg").unwrap();
        assert_eq!(e.page_number, n);
        assert_eq!(e.title, "x");
        n += 1;
    }
    assert_eq!(s.page_number("album"), Some(500));
}

#[test]
fn groups_are_counted_apart() {
    let mut s = Sequencer::new();
    let order = ["a", "b", "a", "c", "b", "a", "a", "c", "b", "b", "b", "a"];
    let mut got_a = Vec::new();
    let mut got_b = Vec::new();
    let mut got_c = Vec::new();
    for g in order {
        let e = s.advance(g, "").unwrap();
        assert_eq!(e.title, g);
        match g {
            "a" => got_a.push(e.page_number),
            "b" => got_b.push(e.page_number),
            _ => got_c.push(e.page_number),
        }
    }
    assert_eq!(got_a, vec![1, 2, 3, 4, 5]);
    assert_eq!(got_b, vec![1, 2, 3, 4, 5]);
    assert_eq!(got_c, vec![1, 2]);
}

#[test]
fn every_order_of_callers_gets_each_page_once() {
    let callers = 6usize;
    let mut order: Vec<usize> = (0..callers).collect();
    let mut round = 0usize;
    while round < 50 {
        order.rotate_left(round % callers);
        order.swap(0, (round * 7 + 3) % callers);
        let mut s = Sequencer::new();
        let mut page_of_caller = vec![0u32; callers];
        for &c in &order {
            page_of_caller[c] = s.advance("shared", "t.jpg").unwrap().page_number;
            s.advance("other", "").unwrap();
        }
        let mut pages = page_of_caller.clone();
        pages.sort();
        assert_eq!(pages, vec![1, 2, 3, 4, 5, 6]);
        round += 1;
    }
}

#[test]
fn page_number_of_unseen_group_is_none() {
    let mut s = Sequencer::new();
    assert_eq!(s.page_number("g"), None);
    s.advance("g", "").unwrap();
    assert_eq!(s.page_number("g"), Some(1));
    assert_eq!(s.page_number("h"), None);
}

#[test]
fn enter_sets_the_state_of_a_group() {
    let mut s = Sequencer::new();
    s.enter("g", MediaGroupEntry { title: "Trip".to_owned(), page_number: 41 });
    assert_eq!(s.page_number("g"), Some(41));
    assert_eq!(pair(s.advance("g", "other.jpg")), Some(("Trip".to_owned(), 42)));
}

#[test]
fn last_page_number_is_given_once() {
    let mut s = Sequencer::new();
    s.enter("g", MediaGroupEntry { title: "Trip".to_owned(), page_number: u32::MAX - 1 });
    assert_eq!(pair(s.advance("g", "")), Some(("Trip".to_owned(), u32::MAX)));
    assert_eq!(pair(s.advance("g", "")), None);
    assert_eq!(pair(s.advance("g", "")), None);
    assert_eq!(s.page_number("g"), Some(u32::MAX));
    assert_eq!(pair(s.advance("h", "")), Some(("h".to_owned(), 1)));
}
