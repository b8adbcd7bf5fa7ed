use encryption_macros::{segment, Segment};

fn text(s: &str) -> Segment {
    Segment::Text(s.to_string())
}

fn ph(s: &str) -> Segment {
    Segment::Placeholder(s.to_string())
}

fn join(segs: &[Segment]) -> String {
    segs.iter()
        .map(|s| match s {
            Segment::Text(t) => t.clone(),
            Segment::Placeholder(p) => p.clone(),
        })
        .collect()
}

fn count(segs: &[Segment]) -> usize {
    segs.iter().filter(|s| matches!(s, Segment::Placeholder(_))).count()
}

#[test]
fn one_run_then_placeholder() {
    let segs = segment("value: {}");
    assert!(matches!(&segs[..], [Segment::Text(a), Segment::Placeholder(b)] if a == "value: " && b == "{}"));
}

#[test]
fn plain_text_is_one_run() {
    let segs = segment("no braces here");
    assert_eq!(segs.len(), 1);
    assert_eq!(join(&segs), "no braces here");
    assert_eq!(count(&segs), 0);
}

#[test]
fn empty_text_has_no_segment() {
    assert_eq!(segment("").len(), 0);
}

#[test]
fn unterminated_brace_folds_into_text() {
    let segs = segment("a {b} c {d");
    assert_eq!(count(&segs), 1);
    assert_eq!(join(&segs), "a {b} c {d");
    assert!(matches!(&segs[2], Segment::Text(t) if t == " c {d"));
}

#[test]
fn adjacent_placeholders_keep_empty_runs() {
    let segs = segment("{x}{y:?}z");
    let expect = [text(""), ph("{x}"), text(""), ph("{y:?}"), text("z")];
    assert_eq!(segs.len(), expect.len());
    for (a, b) in segs.iter().zip(expect.iter()) {
        match (a, b) {
            (Segment::Text(x), Segment::Text(y)) => assert_eq!(x, y),
            (Segment::Placeholder(x), Segment::Placeholder(y)) => assert_eq!(x, y),
            _ => panic!("segment kinds differ"),
        }
    }
}

#[test]
fn coverage_and_count_on_mixed_text() {
    let s = "é{ü} }{ {{a}} {";
    let segs = segment(s);
    assert_eq!(join(&segs), s);
    assert_eq!(count(&segs), 2);
}
