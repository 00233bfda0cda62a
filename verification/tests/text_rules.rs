use showdown_hunter::text::{
    dex_name, remove_occurrences, replace_spaces, set_lines, sprite_name, sprite_style, sprite_url,
    sse_event,
};

#[test]
fn spaces_become_hyphens() {
    assert_eq!(replace_spaces("Mr Mime Jr"), "Mr-Mime-Jr");
    assert_eq!(replace_spaces(""), "");
    assert_eq!(replace_spaces("  "), "--");
}

#[test]
fn removal_is_left_to_right_without_overlap() {
    assert_eq!(remove_occurrences("charizard-mega-x", "-mega"), "charizard-x");
    assert_eq!(remove_occurrences("-mega-mega", "-mega"), "");
    assert_eq!(remove_occurrences("aaa", "aa"), "a");
    // removing the inner occurrence can leave a new one behind
    assert_eq!(remove_occurrences("-m-megaega", "-mega"), "-mega");
    assert_eq!(remove_occurrences("abc", "abcd"), "abc");
}

#[test]
fn sprite_names_are_lowercase_and_hyphenated() {
    assert_eq!(sprite_name("Pikachu"), "pikachu");
    assert_eq!(sprite_name("Iron Valiant"), "iron-valiant");
    assert_eq!(sprite_name("ÉCLAIR"), "éclair");
}

#[test]
fn dex_names_drop_the_mega_marker() {
    assert_eq!(dex_name("Charizard-Mega-X"), "charizard-x");
    assert_eq!(dex_name("Great Tusk"), "great-tusk");
    assert_eq!(dex_name("Meganium"), "meganium");
}

#[test]
fn sprite_style_points_at_the_image_route() {
    assert_eq!(
        sprite_style("Iron Hands"),
        "background-repeat: no-repeat; background-size: contain; background-position: center center; background-image: url(\"/api/image/iron-hands\")"
    );
}

#[test]
fn sprite_url_points_at_smogon() {
    assert_eq!(
        sprite_url("iron-hands"),
        "https://www.smogon.com/dex/media/sprites/xy/iron-hands.gif"
    );
}

#[test]
fn event_frames() {
    assert_eq!(sse_event("poll", "[true,[]]"), "event: poll\ndata: [true,[]]\n\n");
    assert_eq!(sse_event("result", "null"), "event: result\ndata: null\n\n");
}

#[test]
fn lines_of_a_set() {
    assert_eq!(
        set_lines("Gholdengo @ Choice Scarf\nAbility: Good as Gold\n- Make It Rain"),
        vec!["Gholdengo @ Choice Scarf", "Ability: Good as Gold", "- Make It Rain"]
    );
    assert_eq!(set_lines(""), vec![""]);
    assert_eq!(set_lines("a\n"), vec!["a", ""]);
    assert_eq!(set_lines("\n\n"), vec!["", "", ""]);
}

#[test]
fn lines_rejoin_to_the_text() {
    for text in ["", "one", "one\ntwo", "\nx\n\ny\n"] {
        let lines = set_lines(text);
        assert_eq!(lines.join("\n"), text);
        assert!(lines.iter().all(|l| !l.contains('\n')));
        assert_eq!(lines.len(), text.split('\n').count());
    }
}

#[test]
fn sprite_names_have_no_spaces() {
    for name in ["Tapu Koko", " a b ", "Roaring Moon"] {
        let s = sprite_name(name);
        assert!(!s.contains(' '));
        assert_eq!(s.chars().count(), name.to_lowercase().chars().count());
    }
}
