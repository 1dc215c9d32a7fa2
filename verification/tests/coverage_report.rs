use ce_core::coverage::{count_lines, covered_lines, CoverageRun, CoverageTally};
use std::collections::HashSet;

const REPORT: &str = r#"<?xml version="1.0" encoding="utf-8"?>
<coverage line-rate="0.5">
  <packages>
    <package name="p">
      <classes>
        <class name="A" filename="src/a.fs">
          <lines>
            <line number="1" hits="3"/>
            <line number="2" hits="0"/>
            <line number="3" hits="1"/>
          </lines>
        </class>
        <class name="B" filename="src/b.fs">
          <methods>
            <method name="m">
              <lines><line number="9" hits="5"/></lines>
            </method>
          </methods>
          <lines>
            <line number="1" hits="2"/>
            <line number="4" hits="abc"/>
            <line hits="7"/>
          </lines>
        </class>
        <class name="C">
          <lines>
            <line number="5" hits="1"/>
            <line number="5" hits="2"/>
          </lines>
        </class>
      </classes>
    </package>
  </packages>
</coverage>"#;

const SECOND: &str = r#"<coverage><class filename="src/a.fs"><lines>
  <line number="3" hits="+4"/>
  <line number="8" hits="1"/>
</lines></class></coverage>"#;

fn set_of(v: &[(String, u32)]) -> HashSet<(String, u32)> {
    v.iter().cloned().collect()
}

fn entry(f: &str, n: u32) -> (String, u32) {
    (f.to_string(), n)
}

#[test]
fn covered_lines_lists_lines_with_hits_per_file() {
    let v = covered_lines(REPORT).unwrap();
    assert_eq!(
        v,
        vec![entry("src/a.fs", 1), entry("src/a.fs", 3), entry("src/b.fs", 1), entry("src/b.fs", 0), entry("", 5)]
    );
    assert_eq!(set_of(&v).len(), v.len());
}

#[test]
fn covered_lines_of_malformed_xml_is_none() {
    assert!(covered_lines("<coverage><class>").is_none());
    assert!(covered_lines("").is_none());
    assert!(covered_lines("not xml at all").is_none());
}

#[test]
fn covered_lines_of_report_without_classes_is_empty() {
    assert_eq!(covered_lines("<coverage><line number=\"1\" hits=\"1\"/></coverage>"), Some(vec![]));
}

#[test]
fn prefixed_attributes_are_not_the_plain_ones() {
    let xml = r#"<c xmlns:x="urn:x"><class x:filename="ns.fs"><lines><line x:hits="1" hits="2" number="6"/><line x:hits="3" number="7"/></lines></class></c>"#;
    assert_eq!(covered_lines(xml), Some(vec![entry("", 6)]));
}

#[test]
fn numbers_that_do_not_fit_read_as_zero() {
    let xml = r#"<class filename="f"><lines>
        <line number="4294967296" hits="1"/>
        <line number="4294967295" hits="18446744073709551615"/>
        <line number="3" hits="18446744073709551616"/>
        <line number="-1" hits="1"/>
        <line number=" 12" hits="1"/>
    </lines></class>"#;
    assert_eq!(covered_lines(xml), Some(vec![entry("f", 0), entry("f", 4294967295)]));
}

#[test]
fn nested_classes_are_each_read() {
    let xml = r#"<class filename="outer"><class filename="inner"><lines><line number="2" hits="1"/></lines></class><lines><line number="1" hits="1"/></lines></class>"#;
    assert_eq!(set_of(&covered_lines(xml).unwrap()), set_of(&[entry("outer", 1), entry("inner", 2)]));
}

#[test]
fn tally_counts_new_lines_and_the_instrumented_total_once() {
    let mut t = CoverageTally::new();
    assert_eq!(t.totals(), (0, 0));
    assert_eq!(t.record_run(REPORT), Some((5, 5)));
    assert_eq!(t.totals(), (5, 9));
    assert_eq!(t.record_run(SECOND), Some((2, 1)));
    assert_eq!(t.totals(), (6, 9));
    assert_eq!(t.record_run(REPORT), Some((5, 0)));
    assert_eq!(t.totals(), (6, 9));
    assert_eq!(set_of(&t.covered).len(), t.covered.len());
}

#[test]
fn tally_ignores_a_malformed_report() {
    let mut t = CoverageTally::new();
    assert_eq!(t.record_run(SECOND), Some((2, 2)));
    assert_eq!(t.record_run("<coverage>"), None);
    assert_eq!(t.totals(), (2, 2));
    assert_eq!(t.covered, vec![entry("src/a.fs", 3), entry("src/a.fs", 8)]);
}

#[test]
fn tally_counts_lines_until_a_report_has_some() {
    let mut t = CoverageTally::new();
    assert_eq!(t.record_run("<coverage/>"), Some((0, 0)));
    assert_eq!(t.totals(), (0, 0));
    assert_eq!(t.record_run(SECOND), Some((2, 2)));
    assert_eq!(t.totals(), (2, 2));
}

#[test]
fn all_line_elements_are_counted() {
    let doc = ce_core::xml::XmlNode::Root(vec![]);
    assert_eq!(count_lines(&doc), 0);
}

#[test]
fn a_coverage_run_asks_for_seeds_one_to_n_in_order() {
    let mut run = CoverageRun::new(3);
    let mut asked = vec![];
    while let Some(seed) = run.next_seed() {
        asked.push(seed);
        let report = if seed == 2 { SECOND } else { REPORT };
        assert!(run.record(report).is_some());
    }
    assert_eq!(asked, vec![1, 2, 3]);
    assert_eq!(run.tally.totals(), (6, 9));
    assert_eq!(run.next_seed(), None);
}

#[test]
fn a_malformed_report_does_not_count_as_a_seed() {
    let mut run = CoverageRun::new(2);
    assert_eq!(run.next_seed(), Some(1));
    assert_eq!(run.record("<coverage>"), None);
    assert_eq!(run.next_seed(), Some(1));
    assert_eq!(run.record(SECOND), Some((2, 2)));
    assert_eq!(run.next_seed(), Some(2));
}
