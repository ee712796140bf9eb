use webtools::limits::{max_nesting_depth, too_deeply_nested, MAX_NESTING_DEPTH};

#[test]
fn ordinary_documents_are_shallow() {
    let html = "<html><body><div><section><article><p>Hi <b>there</b></p>\
                </article></section></div></body></html>";
    assert!(max_nesting_depth(html) < 10, "{}", max_nesting_depth(html));
    assert_eq!(too_deeply_nested(html), None);
}

#[test]
fn void_and_self_closing_tags_do_not_nest() {
    let html = "<div><br><img src=x><hr><input><meta charset=utf-8><span/></div>";
    assert_eq!(max_nesting_depth(html), 1);
}

#[test]
fn comments_and_doctype_are_ignored() {
    let html = "<!DOCTYPE html><!-- <div><div><div> --><p>x</p>";
    assert_eq!(max_nesting_depth(html), 1);
}

#[test]
fn depth_is_counted() {
    let n = 500;
    let html = format!("{}<p>x</p>{}", "<div>".repeat(n), "</div>".repeat(n));
    assert_eq!(max_nesting_depth(&html), n + 1);
}

#[test]
fn pathological_nesting_is_refused() {
    let n = MAX_NESTING_DEPTH + 1;
    let html = format!("{}text{}", "<div>".repeat(n), "</div>".repeat(n));
    assert_eq!(too_deeply_nested(&html), Some(n));
}

#[test]
fn an_unterminated_tag_or_comment_stops_the_scan() {
    assert_eq!(max_nesting_depth("<div><p"), 1);
    assert_eq!(max_nesting_depth("<div><!-- <p><p>"), 1);
    assert_eq!(max_nesting_depth("</div></div><p>"), 0);
    assert_eq!(max_nesting_depth("<DIV><Span>"), 2);
}
