use waloyo::shorthand::{due_date_from, parse_shorthand, strip_tokens_str, DueShorthand};
use waloyo::task::{TaskPriority, Timestamp};

#[test]
fn priority_and_date_tokens_are_taken_out() {
    let p = parse_shorthand("Buy milk !h @today");
    assert_eq!(p.content, "Buy milk");
    assert_eq!(p.priority, TaskPriority::High);
    assert_eq!(p.due, Some(DueShorthand::Today));
}

#[test]
fn high_wins_over_medium_and_low() {
    let p = parse_shorthand("!l report !m !h");
    assert_eq!(p.priority, TaskPriority::High);
    assert_eq!(p.content, "!l report !m");
    let q = parse_shorthand("!l report !m");
    assert_eq!(q.priority, TaskPriority::Medium);
    assert_eq!(q.content, "!l report");
}

#[test]
fn today_wins_over_tomorrow() {
    let p = parse_shorthand("call @tomorrow @today");
    assert_eq!(p.due, Some(DueShorthand::Today));
    assert_eq!(p.content, "call @tomorrow");
}

#[test]
fn tomorrow_token() {
    let p = parse_shorthand("Implement rain drop animation @tomorrow");
    assert_eq!(p.due, Some(DueShorthand::Tomorrow));
    assert_eq!(p.priority, TaskPriority::Low);
    assert_eq!(p.content, "Implement rain drop animation");
}

#[test]
fn text_without_tokens_is_kept_as_typed() {
    let p = parse_shorthand("  plain text ");
    assert_eq!(p.content, "  plain text ");
    assert_eq!(p.priority, TaskPriority::Low);
    assert_eq!(p.due, None);
}

#[test]
fn every_occurrence_of_the_winning_token_goes() {
    let p = parse_shorthand("!m a !m b !m");
    assert_eq!(p.content, "a  b");
    assert_eq!(p.priority, TaskPriority::Medium);
}

#[test]
fn due_dates_from_shorthand() {
    let now = Timestamp { secs: 1_000, nanos: 7 };
    assert_eq!(due_date_from(Some(DueShorthand::Today), now), Some(now));
    assert_eq!(
        due_date_from(Some(DueShorthand::Tomorrow), now),
        Some(Timestamp { secs: 87_400, nanos: 7 })
    );
    assert_eq!(due_date_from(None, now), None);
}

#[test]
fn stripping_repeats_until_no_token_is_left() {
    let p = parse_shorthand("!!hh x");
    assert_eq!(p.priority, TaskPriority::High);
    assert_eq!(p.content, "x");
    let q = parse_shorthand("a @to@todayday b");
    assert_eq!(q.due, Some(DueShorthand::Today));
    assert_eq!(q.content, "a  b");
}

#[test]
fn tokens_are_looked_for_in_the_text_as_typed() {
    let p = parse_shorthand("@to!hday");
    assert_eq!(p.priority, TaskPriority::High);
    assert_eq!(p.due, None);
    assert_eq!(p.content, "@today");
}

#[test]
fn removing_one_token_can_uncover_the_other() {
    let p = parse_shorthand("call !@todayh mum !h");
    assert_eq!(p.priority, TaskPriority::High);
    assert_eq!(p.due, Some(DueShorthand::Today));
    assert_eq!(p.content, "call  mum");
}

#[test]
fn strip_tokens_with_no_second_token() {
    assert_eq!(strip_tokens_str("x !h", "!h", ""), "x");
    assert_eq!(strip_tokens_str("  x  ", "!h", ""), "  x  ");
}
