use book_catalog::models::{Lang, Rating, Timestamp};

#[test]
fn language_names_round_trip() {
    let all = [
        Lang::English,
        Lang::Russian,
        Lang::Ukrainian,
        Lang::German,
        Lang::Chinese,
        Lang::Japanese,
    ];
    for (i, l) in all.iter().enumerate() {
        assert_eq!(Lang::from_name(l.to_str()), Some(*l));
        assert_eq!(l.index(), i as u32);
        assert_eq!(Lang::from_index(i as u32), Some(*l));
    }
    assert_eq!(Lang::Ukrainian.to_str(), "Ukrainian");
    assert_eq!(Lang::from_index(6), None);
}

#[test]
fn language_names_are_exact() {
    assert_eq!(Lang::from_name("english"), None);
    assert_eq!(Lang::from_name("Eng"), None);
    assert_eq!(Lang::from_name("English "), None);
    assert_eq!(Lang::from_name(""), None);
}

#[test]
fn rating_names_and_stars() {
    let all = [Rating::One, Rating::Two, Rating::Three, Rating::Four, Rating::Five];
    for (i, r) in all.iter().enumerate() {
        assert_eq!(Rating::from_name(r.to_str()), Some(*r));
        assert_eq!(r.stars() as usize, i + 1);
        assert_eq!(Rating::from_index(i as u32), Some(*r));
    }
    assert_eq!(Rating::Three.to_str(), "Three");
    assert_eq!(Rating::from_name("five"), None);
    assert_eq!(Rating::from_name("5"), None);
    assert_eq!(Rating::from_index(5), None);
}

#[test]
fn timestamp_needs_nanos_below_a_second() {
    assert_eq!(Timestamp::new(5, 999_999_999), Some(Timestamp { secs: 5, nanos: 999_999_999 }));
    assert_eq!(Timestamp::new(5, 1_000_000_000), None);
    let a = Timestamp { secs: 5, nanos: 7 };
    let b = Timestamp { secs: 5, nanos: 8 };
    let c = Timestamp { secs: 6, nanos: 0 };
    assert!(a.is_before(b));
    assert!(b.is_before(c));
    assert!(!b.is_before(a));
    assert!(!a.is_before(a));
}

#[test]
fn language_parses_with_from_str() {
    assert_eq!("German".parse::<Lang>(), Ok(Lang::German));
    assert_eq!("german".parse::<Lang>(), Err(()));
}
