use nippo::dashboard::{detail_lines, new_rule_series, recurring_rules, tui_step, DetailKind, KeyInput};
use nippo::ledger::{classify, extract_date_from_stem, fold_reports, normalize_rule, ReportSource};
use nippo::order::RuleSet;
use nippo::report::parse_unclear_points;
use nippo::streak::{Signal, StreakTracker};

const SAMPLE_REPORT: &str = r#"# 日報 2026年05月11日

## 今日の作業

- やったこと
- etc

## Unclear points

- Issue: rayon の lifetime エラーに3時間
  Cause: 借用チェッカーの理解が浅い
  General Fix Rule: rayon 並列化前に scope を `move` で閉じる癖を付ける
- Issue: テストが SQLite ロックで間欠失敗
  Cause: 並列実行時に DB ファイル共有
  General Fix Rule: integration tests は `serial_test` で直列化する

## 統計
"#;

#[test]
fn parses_structured_unclear_points() {
    let pts = parse_unclear_points(SAMPLE_REPORT);
    assert_eq!(pts.len(), 2);
    assert!(pts[0].issue.contains("rayon"));
    assert!(pts[0].rule.contains("scope"));
    assert!(pts[1].rule.contains("serial_test"));
}

#[test]
fn nashi_sentinel_yields_empty() {
    let md = "## Unclear points\n\nなし\n";
    assert!(parse_unclear_points(md).is_empty());
}

#[test]
fn missing_section_yields_empty() {
    assert!(parse_unclear_points("# 日報\n\nなにもなし\n").is_empty());
}

#[test]
fn classifies_new_and_reseen() {
    let pts = parse_unclear_points(SAMPLE_REPORT);
    let mut known = RuleSet::new();
    known.insert(normalize_rule(&pts[0].rule));
    let (new, reseen) = classify(&pts, &known);
    assert_eq!(new.len(), 1);
    assert_eq!(reseen.len(), 1);
    assert!(reseen[0].contains("scope"));
}

#[test]
fn dedup_within_one_report() {
    let mut p = parse_unclear_points(SAMPLE_REPORT);
    // Duplicate the first point — should still only count once.
    let dup = p[0].clone();
    p.push(dup);
    let (new, _) = classify(&p, &RuleSet::new());
    assert_eq!(new.len(), 2);
}

#[test]
fn streak_converges_after_two_zero_iterations() {
    let mut t = StreakTracker::default();
    assert_eq!(t.observe(3), Signal::Continue);
    assert_eq!(t.observe(1), Signal::Continue);
    assert_eq!(t.observe(0), Signal::Continue);
    assert_eq!(t.observe(0), Signal::Converged);
}

#[test]
fn streak_diverges_after_three_nondecreasing() {
    let mut t = StreakTracker::default();
    assert_eq!(t.observe(2), Signal::Continue); // baseline streak=1
    assert_eq!(t.observe(3), Signal::Continue); // streak=2
    assert_eq!(t.observe(3), Signal::Diverged); // streak=3
}

#[test]
fn streak_resets_on_decrease() {
    let mut t = StreakTracker::default();
    assert_eq!(t.observe(5), Signal::Continue);
    assert_eq!(t.observe(6), Signal::Continue);
    assert_eq!(t.observe(2), Signal::Continue);
    assert_eq!(t.observe(3), Signal::Continue);
}

#[test]
fn extract_date_handles_suffix_variants() {
    assert_eq!(
        extract_date_from_stem("nippo-2026-05-11"),
        Some("2026-05-11".into())
    );
    assert_eq!(
        extract_date_from_stem("reflection-2026-05-11-7d"),
        Some("2026-05-11".into())
    );
    assert_eq!(extract_date_from_stem("ledger"), None);
}

#[test]
fn fenced_code_block_does_not_truncate_section() {
    // A code fence containing a `#!/usr/bin/env bash` shebang sits between
    // the two points. If the section scan were not fence-aware it would
    // treat that `#` line as an h1 and cut the second point off.
    let md = "## Unclear points\n\
\n\
- Issue: first issue\n\
  Cause: c1\n\
  General Fix Rule: rule one\n\
\n\
```bash\n\
#!/usr/bin/env bash\n\
echo hi\n\
```\n\
\n\
- Issue: second issue\n\
  Cause: c2\n\
  General Fix Rule: rule two\n\
\n\
## 統計\n";
    let pts = parse_unclear_points(md);
    assert_eq!(pts.len(), 2);
    assert!(pts[1].rule.contains("rule two"));
}

#[test]
fn placeholder_shaped_points_are_dropped() {
    let md = "## Unclear points\n\
\n\
- Issue: （何が詰まりだったか — 一行で具体的に）\n\
  Cause: （なぜ詰まったか — 根本原因を一行で）\n\
  General Fix Rule: （次に同じ状況で使える一般ルール）\n\
\n\
## 統計\n";
    assert!(parse_unclear_points(md).is_empty());
}

fn source(name: &str, body: &str) -> ReportSource {
    ReportSource {
        report: name.to_string(),
        stem: Some(name.trim_end_matches(".md").to_string()),
        text: body.to_string(),
    }
}

#[test]
fn reports_after_convergence_are_still_folded() {
    // Day 1 introduces rule A; days 2-3 have no new rules (converges after
    // day 3); day 4 introduces a brand-new rule B *after* convergence.
    let sources = vec![
        source(
            "nippo-2026-05-01.md",
            "## Unclear points\n\n- Issue: i-a\n  Cause: c-a\n  General Fix Rule: rule alpha\n\n## 統計\n",
        ),
        source("nippo-2026-05-02.md", "## Unclear points\n\nなし\n"),
        source("nippo-2026-05-03.md", "## Unclear points\n\nなし\n"),
        source(
            "nippo-2026-05-04.md",
            "## Unclear points\n\n- Issue: i-b\n  Cause: c-b\n  General Fix Rule: rule beta\n\n## 統計\n",
        ),
    ];
    let outcome = fold_reports(&sources);

    // All four reports were folded, not stopped at the day-3 convergence.
    assert_eq!(outcome.ledger.reports.len(), 4);
    // The post-convergence rule landed in the cumulative known set.
    assert!(outcome.ledger.known_rules.contains(&normalize_rule("rule alpha")));
    assert!(outcome.ledger.known_rules.contains(&normalize_rule("rule beta")));
    // Day 4's new rule is recorded on the last report entry.
    assert_eq!(outcome.ledger.reports[3].new_rules.len(), 1);
}

use nippo::ledger::{format_log_line, select_reports, ReportEntry, ReportFile};

#[test]
fn normalize_rule_collapses_spacing_and_case() {
    assert_eq!(normalize_rule("  Rule\t  ALPHA \n"), "rule alpha");
    assert_eq!(normalize_rule("rule alpha"), normalize_rule("RULE   Alpha"));
    assert_eq!(normalize_rule("   "), "");
}

#[test]
fn streak_counts_growth_only_after_a_drop_recovers() {
    let mut t = StreakTracker::default();
    assert_eq!(t.observe(5), Signal::Continue);
    assert_eq!(t.observe(2), Signal::Continue);
    assert_eq!(t.observe(3), Signal::Continue);
    assert_eq!(t.observe(4), Signal::Continue);
    assert_eq!(t.observe(4), Signal::Diverged);
    assert_eq!(t.observe(0), Signal::Continue);
    assert_eq!(t.observe(0), Signal::Converged);
    assert_eq!(t.observe(0), Signal::Converged);
}

#[test]
fn heading_at_third_depth_is_preferred() {
    let md = "## Unclear points\n\n- Issue: from h2\n\n### Unclear points\n\n- Issue: from h3\n  Rule: r3\n";
    let pts = parse_unclear_points(md);
    assert_eq!(pts.len(), 1);
    assert_eq!(pts[0].issue, "from h3");
    assert_eq!(pts[0].rule, "r3");
}

#[test]
fn mid_line_heading_mention_is_not_a_section() {
    let md = "see ## Unclear points below\n\n- Issue: x\n";
    assert!(parse_unclear_points(md).is_empty());
}

#[test]
fn rule_aliases_and_none_sentinel() {
    let md = "## Unclear points\n- Issue: a\n  Fix Rule: short rule\n- Issue: b\n  Rule: shortest\nCause: late cause\n";
    let pts = parse_unclear_points(md);
    assert_eq!(pts.len(), 2);
    assert_eq!(pts[0].rule, "short rule");
    assert_eq!(pts[1].rule, "shortest");
    assert_eq!(pts[1].cause, "late cause");
    assert!(parse_unclear_points("## Unclear points\n\n  NONE \n").is_empty());
    assert!(parse_unclear_points("## Unclear points\n\n- Issue:\n  Rule: orphan\n").is_empty());
}

#[test]
fn issue_is_the_key_when_the_rule_is_empty() {
    let pts = parse_unclear_points("## Unclear points\n- Issue: Same  Thing\n- Issue: same thing\n");
    let (new, reseen) = classify(&pts, &RuleSet::new());
    assert_eq!(new, vec!["same thing".to_string()]);
    assert!(reseen.is_empty());
}

#[test]
fn classified_keys_are_sorted_and_split() {
    let pts = parse_unclear_points(
        "## Unclear points\n- Issue: i\n  Rule: b rule\n- Issue: j\n  Rule: a rule\n- Issue: k\n  Rule: c rule\n",
    );
    let mut known = RuleSet::new();
    known.insert("c rule".to_string());
    let (new, reseen) = classify(&pts, &known);
    assert_eq!(new, vec!["a rule".to_string(), "b rule".to_string()]);
    assert_eq!(reseen, vec!["c rule".to_string()]);
}

#[test]
fn rule_set_keeps_keys_sorted_and_unique() {
    let mut set = RuleSet::new();
    assert!(set.insert("b".to_string()));
    assert!(set.insert("a".to_string()));
    assert!(!set.insert("b".to_string()));
    assert!(set.insert("ab".to_string()));
    assert_eq!(set.as_vec(), &vec!["a".to_string(), "ab".to_string(), "b".to_string()]);
    assert!(set.contains("ab"));
    assert!(!set.contains("c"));
}

#[test]
fn log_line_pads_name_and_counts() {
    let entry = ReportEntry {
        report: "nippo-2026-05-01.md".to_string(),
        date: Some("2026-05-01".to_string()),
        new_rules: vec!["x".to_string()],
        reseen_rules: vec![],
        points: vec![],
    };
    assert_eq!(
        format_log_line(&entry, Signal::Continue),
        "nippo-2026-05-01.md          new=1  reseen=0  [..]"
    );
    assert_eq!(
        format_log_line(&entry, Signal::Converged),
        "nippo-2026-05-01.md          new=1  reseen=0  [CONVERGED]"
    );
    let long = ReportEntry {
        report: "a-very-long-report-name-over-28.md".to_string(),
        date: None,
        new_rules: vec!["x".to_string(); 12],
        reseen_rules: vec!["y".to_string(); 105],
        points: vec![],
    };
    assert_eq!(
        format_log_line(&long, Signal::Diverged),
        "a-very-long-report-name-over-28.md new=12 reseen=105 [DIVERGE]"
    );
}

fn file(name: &str) -> ReportFile {
    let (stem, ext) = match name.rsplit_once('.') {
        Some((s, e)) => (Some(s.to_string()), Some(e.to_string())),
        None => (Some(name.to_string()), None),
    };
    ReportFile { name: name.to_string(), stem, extension: ext }
}

#[test]
fn daily_reports_are_selected_oldest_first() {
    let files = vec![
        file("nippo-2026-05-03.md"),
        file("ledger.yaml"),
        file("nippo-2026-05-01.md"),
        file("nippo-notes.md"),
        file("nippo-2026-05-02.txt"),
        file("reflection-2026-05-01.md"),
        file("nippo-2026-05-01-b.md"),
    ];
    // `-` sorts before `.`, so `nippo-2026-05-01-b.md` comes first.
    assert_eq!(select_reports(&files), vec![6, 2, 0]);
}

#[test]
fn fold_keeps_known_rules_and_signals() {
    let sources = vec![
        source("nippo-2026-05-01.md", "## Unclear points\n- Issue: a\n  Rule: Rule A\n"),
        source("nippo-2026-05-02.md", "## Unclear points\n- Issue: a\n  Rule: rule  a\n- Issue: b\n  Rule: rule b\n"),
        source("nippo-2026-05-03.md", "## Unclear points\nなし\n"),
    ];
    let outcome = fold_reports(&sources);
    assert_eq!(outcome.ledger.reports[0].date, Some("2026-05-01".to_string()));
    assert_eq!(outcome.ledger.reports[1].new_rules, vec!["rule b".to_string()]);
    assert_eq!(outcome.ledger.reports[1].reseen_rules, vec!["rule a".to_string()]);
    assert_eq!(outcome.ledger.known_rules.as_vec().len(), 2);
    assert_eq!(outcome.signal, Signal::Continue);
    assert_eq!(outcome.log.len(), 3);
    assert!(outcome.log[2].ends_with("[..]"));
    let empty = fold_reports(&[]);
    assert_eq!(empty.signal, Signal::Continue);
    assert!(empty.ledger.reports.is_empty());
}

#[test]
fn rule_keys_treat_unicode_spaces_as_whitespace() {
    assert_eq!(normalize_rule("\u{3000}Use\u{2003}\u{00A0}Tabs\t\u{205F}"), "use tabs");
    assert_eq!(normalize_rule("a\u{200B}b"), "a\u{200B}b");
}

#[test]
fn dashboard_keys_move_within_the_reports_and_quit() {
    assert_eq!(tui_step(0, 3, KeyInput::Down), (1, false));
    assert_eq!(tui_step(2, 3, KeyInput::Down), (2, false));
    assert_eq!(tui_step(0, 3, KeyInput::Up), (0, false));
    assert_eq!(tui_step(2, 3, KeyInput::Up), (1, false));
    assert_eq!(tui_step(1, 3, KeyInput::Other), (1, false));
    assert_eq!(tui_step(1, 3, KeyInput::Quit), (1, true));
    assert_eq!(tui_step(0, 0, KeyInput::Down), (0, true));
}

#[test]
fn dashboard_detail_and_aggregates_follow_the_ledger() {
    let sources = vec![
        source("nippo-2026-05-01.md", "## Unclear points\n- Issue: a\n  Cause: why\n  Rule: Rule A\n- Issue: b\n  Rule: rule b\n"),
        source("nippo-2026-05-02.md", "## Unclear points\n- Issue: a again\n  Rule: rule a\n- Issue: b again\n  Rule: rule b\n"),
        source("nippo-2026-05-03.md", "## Unclear points\n- Issue: b third\n  Rule: rule b\n"),
        source("nippo-2026-05-04.md", "## Unclear points\nなし\n"),
    ];
    let outcome = fold_reports(&sources);
    let ledger = &outcome.ledger;
    assert_eq!(
        detail_lines(ledger, 0),
        vec![
            (DetailKind::Issue, "a".to_string()),
            (DetailKind::Cause, "why".to_string()),
            (DetailKind::Rule, "Rule A".to_string()),
            (DetailKind::Gap, String::new()),
            (DetailKind::Issue, "b".to_string()),
            (DetailKind::Rule, "rule b".to_string()),
        ]
    );
    // A selection past the end shows the last report.
    assert_eq!(detail_lines(ledger, 9), vec![(DetailKind::NoPoints, "（詰まりなし）".to_string())]);
    assert_eq!(new_rule_series(ledger), vec![2, 0, 0, 0]);
    assert_eq!(
        recurring_rules(ledger),
        vec![("rule b".to_string(), 2), ("rule a".to_string(), 1)]
    );
    let empty = fold_reports(&[]);
    assert!(detail_lines(&empty.ledger, 0).is_empty());
    assert!(recurring_rules(&empty.ledger).is_empty());
}
