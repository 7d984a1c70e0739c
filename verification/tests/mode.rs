use pplx::mode::{classify, label, rank_of, ModeKind};

#[test]
fn classify_matches_the_known_tags_exactly() {
    assert_eq!(classify("search"), ModeKind::Search);
    assert_eq!(classify("ask"), ModeKind::Ask);
    assert_eq!(classify("reason"), ModeKind::Reason);
    assert_eq!(classify("research"), ModeKind::Research);
    assert_eq!(classify("Search"), ModeKind::Other);
    assert_eq!(classify("search "), ModeKind::Other);
    assert_eq!(classify(""), ModeKind::Other);
    assert_eq!(classify("chat"), ModeKind::Other);
}

#[test]
fn ranks_follow_the_listing_order() {
    assert_eq!(rank_of(ModeKind::Search), 0);
    assert_eq!(rank_of(ModeKind::Ask), 1);
    assert_eq!(rank_of(ModeKind::Reason), 2);
    assert_eq!(rank_of(ModeKind::Research), 3);
    assert_eq!(rank_of(ModeKind::Other), 4);
}

#[test]
fn label_of_search_is_cyan() {
    assert_eq!(label("search"), "\x1b[36msearch\x1b[39m");
}

#[test]
fn label_of_ask_is_green() {
    assert_eq!(label("ask"), "\x1b[32mask\x1b[39m");
}

#[test]
fn label_of_reason_is_yellow() {
    assert_eq!(label("reason"), "\x1b[33mreason\x1b[39m");
}

#[test]
fn label_of_research_is_magenta() {
    assert_eq!(label("research"), "\x1b[35mresearch\x1b[39m");
}

#[test]
fn label_of_an_unknown_mode_is_plain() {
    assert_eq!(label("chat"), "chat");
    assert_eq!(label(""), "");
}
