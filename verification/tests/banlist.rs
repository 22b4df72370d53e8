use ygo_destiny::banlist::{parse_banlist, strip_comment_lines};
use ygo_destiny::model::BanlistEntry;

fn entry(card: &str, tier: Option<u32>) -> BanlistEntry {
    BanlistEntry { card: card.to_string(), tier }
}

#[test]
fn comment_line_gives_no_entry() {
    let entries = parse_banlist("#comment\nCardA 1\n");
    assert_eq!(entries, vec![entry("CardA", Some(1))]);
}

#[test]
fn strip_removes_only_lines_that_begin_with_marker() {
    assert_eq!(strip_comment_lines("#a\nb #c\n#d\ne\n"), "b #c\ne\n");
    assert_eq!(strip_comment_lines("x\n#last"), "x\n");
    assert_eq!(strip_comment_lines(""), "");
    assert_eq!(strip_comment_lines("\n#\n\n"), "\n\n");
    assert_eq!(strip_comment_lines(" #a\n"), " #a\n");
}

#[test]
fn marker_after_other_content_keeps_the_line() {
    assert_eq!(parse_banlist("CardA #1\n"), vec![entry("CardA #1", None)]);
    assert_eq!(
        parse_banlist("Card#A 2\n#x\nCardB 3 # note\n"),
        vec![entry("Card#A", Some(2)), entry("CardB 3 # note", None)]
    );
}

#[test]
fn every_line_that_is_not_blank_gives_one_entry() {
    assert_eq!(
        parse_banlist("CardA 1\n\nnonsense\nCardB 2\n"),
        vec![entry("CardA", Some(1)), entry("nonsense", None), entry("CardB", Some(2))]
    );
    assert_eq!(parse_banlist("A 4294967296\n"), vec![entry("A 4294967296", None)]);
    assert_eq!(parse_banlist(" 3\n"), vec![entry(" 3", None)]);
    assert_eq!(parse_banlist("A \n"), vec![entry("A ", None)]);
    assert_eq!(parse_banlist("A -1"), vec![entry("A -1", None)]);
    assert_eq!(parse_banlist(""), vec![]);
    assert_eq!(parse_banlist("\n\n#only\n"), vec![]);
}

#[test]
fn card_names_may_hold_spaces() {
    assert_eq!(
        parse_banlist("Blue Dragon 0\n# note\nRed Mage 4294967295"),
        vec![entry("Blue Dragon", Some(0)), entry("Red Mage", Some(4294967295))]
    );
}
