use megadown::names::{
    candidate_name, manifest_name_for, part_name_for, sanitize_component, usable, OutputSearch,
};

#[test]
fn illegal_characters_are_taken_out() {
    assert_eq!(sanitize_component("a/b\\c:d*e?f\"g<h>i|j", false), "abcdefghij");
    assert_eq!(sanitize_component("tab\there\u{85}", false), "tabhere");
    assert_eq!(sanitize_component("  spaced name  ", false), "spaced name");
}

#[test]
fn plain_names_stay_as_they_are() {
    for name in ["movie.mkv", ".hidden", "名字.txt", "a.b.c", "CON"] {
        assert_eq!(sanitize_component(name, false), name);
    }
}

#[test]
fn names_that_name_nothing_are_replaced() {
    for name in ["", "   ", ".", "..", "...", "///", "\u{1}\u{2}"] {
        assert_eq!(sanitize_component(name, false), "download");
    }
    assert_eq!(usable(" .. "), "download");
    assert_eq!(usable(" x "), "x");
}

#[test]
fn names_are_cut_to_255_bytes() {
    assert_eq!(sanitize_component(&"x".repeat(300), false).len(), 255);
    assert_eq!(sanitize_component(&"名".repeat(100), false).len(), 255);
    assert_eq!(sanitize_component(&"é".repeat(200), true), "é".repeat(127));
}

#[test]
fn windows_names_are_stricter() {
    assert_eq!(sanitize_component("CON", true), "download");
    assert_eq!(sanitize_component("lpt1.txt", true), "download");
    assert_eq!(sanitize_component("name. .", true), "name");
    assert_eq!(sanitize_component("con .txt", true), "con .txt");
    assert_eq!(sanitize_component("con ", true), "con");
    assert_eq!(sanitize_component("Aux.tar.gz", true), "download");
    assert_eq!(sanitize_component("com10", true), "com10");
    assert_eq!(sanitize_component("COM0", true), "download");
    assert_eq!(sanitize_component("co:n", true), "download");
    assert_eq!(sanitize_component("console", true), "console");
    assert_eq!(sanitize_component(".hidden", true), ".hidden");
}

#[test]
fn candidates_carry_a_number_before_the_extension() {
    assert_eq!(candidate_name("movie.mkv", 0), "movie.mkv");
    assert_eq!(candidate_name("movie.mkv", 1), "movie (1).mkv");
    assert_eq!(candidate_name("a.tar.gz", 12), "a.tar (12).gz");
    assert_eq!(candidate_name("README", 3), "README (3)");
    assert_eq!(candidate_name(".hidden", 1), ".hidden (1)");
    assert_eq!(candidate_name("dot.", 1), "dot (1)");
}

#[test]
fn candidates_are_distinct() {
    let mut tried: Vec<String> = (0..200).map(|index| candidate_name("x (1).y", index)).collect();
    tried.sort();
    tried.dedup();
    assert_eq!(tried.len(), 200);
}

#[test]
fn search_takes_the_first_free_name() {
    let taken = ["a.txt", "a (1).txt", "a (3).txt"];
    let mut search = OutputSearch::new("a.txt", false, false);
    let found = loop {
        let name = search.current();
        if search.answer(taken.contains(&name.as_str())).expect("a free name") {
            break name;
        }
    };
    assert_eq!(found, "a (2).txt");
}

#[test]
fn overwriting_needs_no_search() {
    let search = OutputSearch::new("../a.txt", true, false);
    assert!(search.is_settled());
    assert_eq!(search.current(), "..a.txt");
    assert!(!OutputSearch::new("a.txt", false, false).is_settled());
}

#[test]
fn search_gives_up_after_ten_thousand_names() {
    let mut search = OutputSearch::new("a", false, false);
    for _ in 0..9_999 {
        assert_eq!(search.answer(true).ok(), Some(false));
    }
    assert_eq!(search.current(), "a (9999)");
    assert_eq!(
        search.answer(true).expect_err("no name left").message(),
        "could not allocate a unique output path"
    );
}

#[test]
fn artifacts_stand_beside_the_file() {
    assert_eq!(part_name_for(Some("a.txt")), "a.txt.megadown.part");
    assert_eq!(manifest_name_for(Some("a.txt")), "a.txt.megadown.json");
    assert_eq!(part_name_for(None), "download.megadown.part");
    assert_eq!(manifest_name_for(None), "download.megadown.json");
}
