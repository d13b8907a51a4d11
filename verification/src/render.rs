//! The visual panels that an HTML report shows above its Markdown body.
//!
//! Every panel is built only from headings and values found in the Markdown.
//! Bar charts are drawn from numbers with floating-point arithmetic, which is
//! done outside this library: the library says which tables each mode charts
//! (`chart_requests`) and places the charts it is handed.
use vstd::prelude::*;
use crate::sections::{
    find_heading, h2_of, labeled_items, labeled_list_in_section, has_section, lines_of,
    opt_table_view, pair_view, pair_views, section_table, strip_order_prefix, subheadings,
    subheadings_in_section, subsections, subsections_in_section, subsection_views, string_views,
    table_after_heading, table_under, table_view, window_after, without_order_prefix, LineTest,
    ReportSubsection, SubsectionView,
};
use crate::text::{chars_of, escape, lines, push_escaped, push_str, starts_with, trim};

verus! {

/// The kinds of report that can be rendered as HTML.
#[derive(Debug, PartialEq, Eq, Structural, Clone, Copy)]
pub enum HtmlReportMode {
    /// A look back over a period, following the ALACT model.
    Insight,
    /// Changes across three periods.
    Trend,
    /// A report for an evaluation interview or self-assessment.
    Review,
}

// ---------------------------------------------------------------------------
// Panels and cards
// ---------------------------------------------------------------------------

/// A visual panel with a heading.
pub open spec fn panel(title: Seq<char>, content: Seq<char>) -> Seq<char> {
    "<section class=\"visual-panel\"><h2>"@ + title + "</h2>"@ + content + "</section>"@
}

/// One metric card.
pub open spec fn metric_card(p: (Seq<char>, Seq<char>)) -> Seq<char> {
    "<div class=\"metric-card\"><dt>"@ + escape(p.0) + "</dt><dd>"@ + escape(p.1) + "</dd></div>"@
}

/// The metric cards of all pairs, in order.
pub open spec fn metric_cards(ms: Seq<(Seq<char>, Seq<char>)>) -> Seq<char>
    decreases ms.len(),
{
    if ms.len() == 0 {
        Seq::empty()
    } else {
        metric_cards(ms.drop_last()) + metric_card(ms.last())
    }
}

/// The card grid of the pairs, labelled for assistive technology; `None` when
/// there are no cards.
pub open spec fn labeled_cards(ms: Seq<(Seq<char>, Seq<char>)>, aria: Seq<char>) -> Option<
    Seq<char>,
> {
    if metric_cards(ms).len() == 0 {
        None
    } else {
        Some(
            "<dl class=\"metrics-grid\" aria-label=\""@ + escape(aria) + "\">"@ + metric_cards(ms)
                + "</dl>"@,
        )
    }
}

/// Appends `<section class="visual-panel"><h2>`.
fn open_panel(s: &mut String)
    ensures
        final(s)@ == old(s)@ + "<section class=\"visual-panel\"><h2>"@,
{
    push_str(s, "<section class=\"visual-panel\"><h2>");
}

/// The metric cards as a labelled grid, or `None` when there are none.
pub fn render_labeled_cards(metrics: &[(String, String)], aria_label: &str) -> (r: Option<String>)
    ensures
        match r {
            Some(x) => labeled_cards(pair_views(metrics@), aria_label@) == Some(x@),
            None => labeled_cards(pair_views(metrics@), aria_label@) is None,
        },
{
    let ghost ms = pair_views(metrics@);
    let mut cards = String::new();
    let mut i: usize = 0;
    assert(ms.take(0) =~= Seq::<(Seq<char>, Seq<char>)>::empty());
    while i < metrics.len()
        invariant
            i <= metrics@.len(),
            ms == pair_views(metrics@),
            cards@ == metric_cards(ms.take(i as int)),
        decreases metrics.len() - i,
    {
        let (label, value) = &metrics[i];
        assert(ms.take(i + 1).drop_last() =~= ms.take(i as int));
        assert(ms.take(i + 1).last() == pair_view(metrics@[i as int]));
        push_str(&mut cards, "<div class=\"metric-card\"><dt>");
        let lv = chars_of(label.as_str());
        push_escaped(&mut cards, lv.as_slice());
        push_str(&mut cards, "</dt><dd>");
        let vv = chars_of(value.as_str());
        push_escaped(&mut cards, vv.as_slice());
        push_str(&mut cards, "</dd></div>");
        assert(cards@ =~= metric_cards(ms.take(i + 1)));
        i = i + 1;
    }
    assert(ms.take(metrics@.len() as int) =~= ms);
    if cards.as_str().is_empty() {
        return None;
    }
    let mut out = String::new();
    push_str(&mut out, "<dl class=\"metrics-grid\" aria-label=\"");
    let av = chars_of(aria_label);
    push_escaped(&mut out, av.as_slice());
    push_str(&mut out, "\">");
    push_str(&mut out, cards.as_str());
    push_str(&mut out, "</dl>");
    assert(out@ =~= labeled_cards(ms, aria_label@)->0);
    Some(out)
}

/// The first two cells of every table row after the header row that has at
/// least two cells.
pub open spec fn metric_pairs(rows: Seq<Seq<Seq<char>>>) -> Seq<(Seq<char>, Seq<char>)>
    decreases rows.len(),
{
    if rows.len() <= 1 {
        Seq::empty()
    } else {
        let r = rows.last();
        if r.len() >= 2 {
            metric_pairs(rows.drop_last()).push((r[0], r[1]))
        } else {
            metric_pairs(rows.drop_last())
        }
    }
}

/// The metric cards of a `label | value` table.
pub fn render_metric_cards(table: Vec<Vec<String>>) -> (r: Option<String>)
    ensures
        match r {
            Some(x) => labeled_cards(metric_pairs(table_view(table@)), "定量データの視覚化"@) == Some(
                x@,
            ),
            None => labeled_cards(metric_pairs(table_view(table@)), "定量データの視覚化"@) is None,
        },
{
    let ghost tv = table_view(table@);
    let mut metrics: Vec<(String, String)> = Vec::new();
    let mut i: usize = 1;
    if table.len() == 0 {
        i = 0;
    }
    assert(pair_views(metrics@) =~= metric_pairs(tv.take(i as int)));
    while i < table.len()
        invariant
            i <= table@.len(),
            table@.len() > 0 ==> 1 <= i,
            tv == table_view(table@),
            pair_views(metrics@) == metric_pairs(tv.take(i as int)),
        decreases table.len() - i,
    {
        let row = &table[i];
        assert(tv.take(i + 1).drop_last() =~= tv.take(i as int));
        assert(tv.take(i + 1).last() == string_views(row@));
        if row.len() >= 2 {
            let ghost before = metrics@;
            metrics.push((row[0].clone(), row[1].clone()));
            assert(pair_views(metrics@) =~= pair_views(before).push(
                (string_views(row@)[0], string_views(row@)[1]),
            ));
        }
        i = i + 1;
    }
    assert(tv.take(table@.len() as int) =~= tv);
    render_labeled_cards(metrics.as_slice(), "定量データの視覚化")
}

// ---------------------------------------------------------------------------
// Review reports
// ---------------------------------------------------------------------------

/// The `<dt>`/`<dd>` pairs of a subsection's fields.
pub open spec fn field_list(fs: Seq<(Seq<char>, Seq<char>)>) -> Seq<char>
    decreases fs.len(),
{
    if fs.len() == 0 {
        Seq::empty()
    } else {
        field_list(fs.drop_last()) + "<dt>"@ + escape(fs.last().0) + "</dt><dd>"@ + escape(
            fs.last().1,
        ) + "</dd>"@
    }
}

/// The card of one achievement.
pub open spec fn achievement_card(a: SubsectionView) -> Seq<char> {
    "<article class=\"achievement-card\"><h3>"@ + escape(without_order_prefix(a.heading))
        + "</h3><dl>"@ + field_list(a.fields) + "</dl></article>"@
}

/// The cards of all achievements, in order.
pub open spec fn achievement_cards(s: Seq<SubsectionView>) -> Seq<char>
    decreases s.len(),
{
    if s.len() == 0 {
        Seq::empty()
    } else {
        achievement_cards(s.drop_last()) + achievement_card(s.last())
    }
}

/// A stage of the review flow, listed when its section exists.
pub open spec fn stage(md: Seq<char>, h: Seq<char>) -> Seq<char> {
    if find_heading(lines(md), h2_of(h), 0) is Some {
        "<li>"@ + escape(h) + "</li>"@
    } else {
        Seq::empty()
    }
}

/// The stages of the review flow that the report has.
pub open spec fn review_stages(md: Seq<char>) -> Seq<char> {
    stage(md, "主要な成果"@) + stage(md, "技術的な成長"@) + stage(md, "課題と学び"@) + stage(
        md,
        "次期の目標"@,
    )
}

/// The key-metrics panel of a review report, from the `定量データ` table.
pub open spec fn review_metrics_panel(md: Seq<char>) -> Seq<char> {
    match table_under(lines(md), h2_of("定量データ"@)) {
        Some(t) => match labeled_cards(metric_pairs(t), "定量データの視覚化"@) {
            Some(c) => panel("主要指標"@, c),
            None => Seq::empty(),
        },
        None => Seq::empty(),
    }
}

/// The achievements of a review report: the `### ` subsections of `主要な成果`.
pub open spec fn review_achievements(md: Seq<char>) -> Seq<SubsectionView> {
    subsections(window_after(lines(md), h2_of("主要な成果"@), LineTest::NoSectionHeading))
}

/// The achievement-card panel of a review report.
pub open spec fn review_achievement_panel(md: Seq<char>) -> Seq<char> {
    if review_achievements(md).len() == 0 {
        Seq::empty()
    } else {
        panel(
            "主要な成果"@,
            "<div class=\"achievement-grid\">"@ + achievement_cards(review_achievements(md))
                + "</div>"@,
        )
    }
}

/// The review-flow panel of a review report.
pub open spec fn review_flow_panel(md: Seq<char>) -> Seq<char> {
    if review_stages(md).len() == 0 {
        Seq::empty()
    } else {
        panel("レビューの流れ"@, "<ol class=\"review-flow\">"@ + review_stages(md) + "</ol>"@)
    }
}

/// The panels of a review report: key metrics from the `定量データ` table,
/// the achievement cards of `主要な成果`, and the flow of the review sections
/// that are present; each panel only when it has content.
pub open spec fn review_html(md: Seq<char>) -> Seq<char> {
    review_metrics_panel(md) + review_achievement_panel(md) + review_flow_panel(md)
}

/// Appends the card of one achievement.
fn push_achievement_card(out: &mut String, a: &ReportSubsection)
    ensures
        final(out)@ == old(out)@ + achievement_card(a@),
{
    push_str(out, "<article class=\"achievement-card\"><h3>");
    let stripped = strip_order_prefix(a.heading.as_str());
    let hv = chars_of(stripped.as_str());
    push_escaped(out, hv.as_slice());
    push_str(out, "</h3><dl>");
    let ghost before = out@;
    let ghost fs = pair_views(a.fields@);
    let mut i: usize = 0;
    assert(fs.take(0) =~= Seq::<(Seq<char>, Seq<char>)>::empty());
    assert(out@ =~= before + field_list(fs.take(0)));
    while i < a.fields.len()
        invariant
            i <= a.fields@.len(),
            fs == pair_views(a.fields@),
            out@ == before + field_list(fs.take(i as int)),
        decreases a.fields.len() - i,
    {
        let (label, value) = &a.fields[i];
        assert(fs.take(i + 1).drop_last() =~= fs.take(i as int));
        assert(fs.take(i + 1).last() == pair_view(a.fields@[i as int]));
        push_str(out, "<dt>");
        let lv = chars_of(label.as_str());
        push_escaped(out, lv.as_slice());
        push_str(out, "</dt><dd>");
        let vv = chars_of(value.as_str());
        push_escaped(out, vv.as_slice());
        push_str(out, "</dd>");
        assert(out@ =~= before + field_list(fs.take(i + 1)));
        i = i + 1;
    }
    assert(fs.take(a.fields@.len() as int) =~= fs);
    push_str(out, "</dl></article>");
    assert(final(out)@ =~= old(out)@ + achievement_card(a@));
}

/// Appends a review stage when the report has its section.
fn push_stage(out: &mut String, markdown: &str, heading: &str)
    ensures
        final(out)@ == old(out)@ + stage(markdown@, heading@),
{
    if has_section(markdown, heading) {
        push_str(out, "<li>");
        let hv = chars_of(heading);
        push_escaped(out, hv.as_slice());
        push_str(out, "</li>");
    } else {
        assert(old(out)@ + Seq::<char>::empty() =~= old(out)@);
    }
}

/// Appends the key-metrics panel of a review report.
fn push_review_metrics(panels: &mut String, markdown: &str)
    ensures
        final(panels)@ == old(panels)@ + review_metrics_panel(markdown@),
{
    match section_table(markdown, "定量データ") {
        Some(table) => match render_metric_cards(table) {
            Some(cards) => {
                open_panel(panels);
                push_str(panels, "主要指標");
                push_str(panels, "</h2>");
                push_str(panels, cards.as_str());
                push_str(panels, "</section>");
                assert(final(panels)@ =~= old(panels)@ + review_metrics_panel(markdown@));
            },
            None => {
                assert(old(panels)@ + Seq::<char>::empty() =~= old(panels)@);
            },
        },
        None => {
            assert(old(panels)@ + Seq::<char>::empty() =~= old(panels)@);
        },
    }
}

/// Appends the achievement-card panel of a review report.
fn push_review_achievements(panels: &mut String, markdown: &str)
    ensures
        final(panels)@ == old(panels)@ + review_achievement_panel(markdown@),
{
    let achievements = subsections_in_section(markdown, "主要な成果");
    let ghost avs = subsection_views(achievements@);
    if achievements.len() == 0 {
        assert(old(panels)@ + Seq::<char>::empty() =~= old(panels)@);
        return;
    }
    let mut cards = String::new();
    let mut i: usize = 0;
    assert(avs.take(0) =~= Seq::<SubsectionView>::empty());
    while i < achievements.len()
        invariant
            i <= achievements@.len(),
            avs == subsection_views(achievements@),
            cards@ == achievement_cards(avs.take(i as int)),
        decreases achievements.len() - i,
    {
        assert(avs.take(i + 1).drop_last() =~= avs.take(i as int));
        assert(avs.take(i + 1).last() == achievements@[i as int]@);
        push_achievement_card(&mut cards, &achievements[i]);
        i = i + 1;
    }
    assert(avs.take(achievements@.len() as int) =~= avs);
    open_panel(panels);
    push_str(panels, "主要な成果");
    push_str(panels, "</h2>");
    push_str(panels, "<div class=\"achievement-grid\">");
    push_str(panels, cards.as_str());
    push_str(panels, "</div>");
    push_str(panels, "</section>");
    assert(final(panels)@ =~= old(panels)@ + review_achievement_panel(markdown@));
}

/// Appends the review-flow panel of a review report.
fn push_review_flow(panels: &mut String, markdown: &str)
    ensures
        final(panels)@ == old(panels)@ + review_flow_panel(markdown@),
{
    let mut stages = String::new();
    push_stage(&mut stages, markdown, "主要な成果");
    push_stage(&mut stages, markdown, "技術的な成長");
    push_stage(&mut stages, markdown, "課題と学び");
    push_stage(&mut stages, markdown, "次期の目標");
    assert(stages@ =~= review_stages(markdown@));
    if stages.as_str().is_empty() {
        assert(old(panels)@ + Seq::<char>::empty() =~= old(panels)@);
        return;
    }
    open_panel(panels);
    push_str(panels, "レビューの流れ");
    push_str(panels, "</h2>");
    push_str(panels, "<ol class=\"review-flow\">");
    push_str(panels, stages.as_str());
    push_str(panels, "</ol>");
    push_str(panels, "</section>");
    assert(final(panels)@ =~= old(panels)@ + review_flow_panel(markdown@));
}

/// The visual panels of a review report.
pub fn render_review_visualizations(markdown: &str) -> (r: String)
    ensures
        r@ == review_html(markdown@),
{
    let mut panels = String::new();
    push_review_metrics(&mut panels, markdown);
    push_review_achievements(&mut panels, markdown);
    push_review_flow(&mut panels, markdown);
    assert(panels@ =~= review_html(markdown@));
    panels
}

// ---------------------------------------------------------------------------
// Insight reports
// ---------------------------------------------------------------------------

/// The items of the ALACT flow: each phase heading without its order prefix.
pub open spec fn phase_items(ps: Seq<Seq<char>>) -> Seq<char>
    decreases ps.len(),
{
    if ps.len() == 0 {
        Seq::empty()
    } else {
        phase_items(ps.drop_last()) + "<li>"@ + escape(without_order_prefix(ps.last())) + "</li>"@
    }
}

/// The ALACT phases of an insight report: the `### ` headings of
/// `振り返り（ALACT モデル）`.
pub open spec fn insight_phases(md: Seq<char>) -> Seq<Seq<char>> {
    subheadings(
        window_after(lines(md), h2_of("振り返り（ALACT モデル）"@), LineTest::NoSectionHeading),
    )
}

/// A panel holding a chart, when there is one.
pub open spec fn chart_panel(title: Seq<char>, chart: Option<Seq<char>>) -> Seq<char> {
    match chart {
        Some(c) => panel(title, c),
        None => Seq::empty(),
    }
}

/// The view of an optional string.
pub open spec fn opt_string_view(o: Option<String>) -> Option<Seq<char>> {
    match o {
        Some(s) => Some(s@),
        None => None,
    }
}

/// The panels of an insight report: the period's key figures (the labeled
/// bullets of `期間の概要`), the project chart, the tool chart, and the flow of
/// at most four ALACT phases; each panel only when it has content.
pub open spec fn insight_html(md: Seq<char>, project: Option<Seq<char>>, tools: Option<Seq<char>>) -> Seq<
    char,
> {
    let cards = match labeled_cards(
        labeled_items(window_after(lines(md), h2_of("期間の概要"@), LineTest::NoHash)),
        "期間の主要指標"@,
    ) {
        Some(c) => panel("期間の概要"@, c),
        None => Seq::empty(),
    };
    let phases = insight_phases(md);
    let flow = if phases.len() == 0 {
        Seq::empty()
    } else {
        panel(
            "ALACTの流れ"@,
            "<ol class=\"alact-flow\">"@ + phase_items(
                phases.take(if phases.len() < 4 {
                    phases.len() as int
                } else {
                    4
                }),
            ) + "</ol>"@,
        )
    };
    cards + chart_panel("プロジェクト構成"@, project) + chart_panel("ツール使用傾向"@, tools) + flow
}

/// Appends a chart panel when there is a chart.
fn push_chart_panel(out: &mut String, title: &str, chart: &Option<String>)
    ensures
        final(out)@ == old(out)@ + chart_panel(title@, opt_string_view(*chart)),
{
    match chart {
        Some(c) => {
            open_panel(out);
            push_str(out, title);
            push_str(out, "</h2>");
            push_str(out, c.as_str());
            push_str(out, "</section>");
            assert(final(out)@ =~= old(out)@ + chart_panel(title@, opt_string_view(*chart)));
        },
        None => {
            assert(old(out)@ + Seq::<char>::empty() =~= old(out)@);
        },
    }
}

/// Appends the ALACT-flow panel of an insight report.
fn push_alact_flow(out: &mut String, markdown: &str)
    ensures
        final(out)@ == old(out)@ + (if insight_phases(markdown@).len() == 0 {
            Seq::empty()
        } else {
            panel(
                "ALACTの流れ"@,
                "<ol class=\"alact-flow\">"@ + phase_items(
                    insight_phases(markdown@).take(if insight_phases(markdown@).len() < 4 {
                        insight_phases(markdown@).len() as int
                    } else {
                        4
                    }),
                ) + "</ol>"@,
            )
        }),
{
    let phases = subheadings_in_section(markdown, "振り返り（ALACT モデル）");
    let ghost ps = string_views(phases@);
    if phases.len() == 0 {
        assert(old(out)@ + Seq::<char>::empty() =~= old(out)@);
        return;
    }
    let limit: usize = if phases.len() < 4 {
        phases.len()
    } else {
        4
    };
    let mut items = String::new();
    let mut i: usize = 0;
    assert(ps.take(0) =~= Seq::<Seq<char>>::empty());
    while i < limit
        invariant
            i <= limit <= phases@.len(),
            ps == string_views(phases@),
            items@ == phase_items(ps.take(i as int)),
        decreases limit - i,
    {
        assert(ps.take(i + 1).drop_last() =~= ps.take(i as int));
        assert(ps.take(i + 1).last() == phases@[i as int]@);
        push_str(&mut items, "<li>");
        let stripped = strip_order_prefix(phases[i].as_str());
        let sv = chars_of(stripped.as_str());
        push_escaped(&mut items, sv.as_slice());
        push_str(&mut items, "</li>");
        assert(items@ =~= phase_items(ps.take(i + 1)));
        i = i + 1;
    }
    open_panel(out);
    push_str(out, "ALACTの流れ");
    push_str(out, "</h2>");
    push_str(out, "<ol class=\"alact-flow\">");
    push_str(out, items.as_str());
    push_str(out, "</ol>");
    push_str(out, "</section>");
    assert(final(out)@ =~= old(out)@ + panel(
        "ALACTの流れ"@,
        "<ol class=\"alact-flow\">"@ + phase_items(ps.take(limit as int)) + "</ol>"@,
    ));
}

/// The visual panels of an insight report, with the project and tool charts
/// drawn from its `### プロジェクト別サマリー` and `### ツール使用傾向` tables.
pub fn render_insight_visualizations(
    markdown: &str,
    project_chart: &Option<String>,
    tool_chart: &Option<String>,
) -> (r: String)
    ensures
        r@ == insight_html(
            markdown@,
            opt_string_view(*project_chart),
            opt_string_view(*tool_chart),
        ),
{
    let mut panels = String::new();
    let metrics = labeled_list_in_section(markdown, "期間の概要");
    match render_labeled_cards(metrics.as_slice(), "期間の主要指標") {
        Some(cards) => {
            open_panel(&mut panels);
            push_str(&mut panels, "期間の概要");
            push_str(&mut panels, "</h2>");
            push_str(&mut panels, cards.as_str());
            push_str(&mut panels, "</section>");
        },
        None => {},
    }
    let ghost first = panels@;
    push_chart_panel(&mut panels, "プロジェクト構成", project_chart);
    push_chart_panel(&mut panels, "ツール使用傾向", tool_chart);
    push_alact_flow(&mut panels, markdown);
    assert(panels@ =~= insight_html(
        markdown@,
        opt_string_view(*project_chart),
        opt_string_view(*tool_chart),
    ));
    panels
}

// ---------------------------------------------------------------------------
// Trend reports
// ---------------------------------------------------------------------------

/// The heading of the `k`-th trend section charted.
pub open spec fn trend_heading(k: int) -> Seq<char> {
    if k == 0 {
        "期間の概要"@
    } else if k == 1 {
        "ツール使用の変化"@
    } else {
        "活動量の推移"@
    }
}

/// The panel title of the `k`-th trend chart.
pub open spec fn trend_title(k: int) -> Seq<char> {
    if k == 0 {
        "期間比較"@
    } else if k == 1 {
        "ツール使用の変化"@
    } else {
        "活動量の推移"@
    }
}

/// The views of a list of optional charts.
pub open spec fn chart_views(v: Seq<Option<String>>) -> Seq<Option<Seq<char>>> {
    v.map_values(|o: Option<String>| opt_string_view(o))
}

/// The panel of the `k`-th trend chart, when it was drawn.
pub open spec fn trend_panel(charts: Seq<Option<Seq<char>>>, k: int) -> Seq<char> {
    if k < charts.len() && charts[k] is Some {
        panel(escape(trend_title(k)), charts[k]->0)
    } else {
        Seq::empty()
    }
}

/// The panels of a trend report: the period comparison, the change in tool
/// use and the activity trend, each when its chart was drawn.
pub open spec fn trend_html(charts: Seq<Option<Seq<char>>>) -> Seq<char> {
    trend_panel(charts, 0) + trend_panel(charts, 1) + trend_panel(charts, 2)
}

/// Appends the panel of the `k`-th trend chart.
fn push_trend_panel(out: &mut String, charts: &[Option<String>], k: usize, title: &str)
    requires
        title@ == trend_title(k as int),
    ensures
        final(out)@ == old(out)@ + trend_panel(chart_views(charts@), k as int),
{
    if k < charts.len() {
        match &charts[k] {
            Some(c) => {
                open_panel(out);
                let tv = chars_of(title);
                push_escaped(out, tv.as_slice());
                push_str(out, "</h2>");
                push_str(out, c.as_str());
                push_str(out, "</section>");
                assert(chart_views(charts@)[k as int] == Some(c@));
                assert(final(out)@ =~= old(out)@ + trend_panel(chart_views(charts@), k as int));
                return;
            },
            None => {},
        }
    }
    assert(old(out)@ + Seq::<char>::empty() =~= old(out)@);
}

/// The visual panels of a trend report, from the charts of its three charted
/// sections (in the order of `chart_requests`).
pub fn render_trend_visualizations(charts: &[Option<String>]) -> (r: String)
    ensures
        r@ == trend_html(chart_views(charts@)),
{
    let mut panels = String::new();
    push_trend_panel(&mut panels, charts, 0, "期間比較");
    push_trend_panel(&mut panels, charts, 1, "ツール使用の変化");
    push_trend_panel(&mut panels, charts, 2, "活動量の推移");
    assert(panels@ =~= trend_html(chart_views(charts@)));
    panels
}

// ---------------------------------------------------------------------------
// Charts requested per mode, and the panels of a mode
// ---------------------------------------------------------------------------

/// A chart to draw: the table to draw it from (if the report has it), the
/// column of the value to chart (`None` for a comparison of the three period
/// columns), and the chart's accessible label.
pub struct ChartRequest {
    pub table: Option<Vec<Vec<String>>>,
    pub value_column: Option<usize>,
    pub aria_label: String,
}

/// The text of a `ChartRequest`.
pub struct RequestView {
    pub table: Option<Seq<Seq<Seq<char>>>>,
    pub value_column: Option<usize>,
    pub aria_label: Seq<char>,
}

impl View for ChartRequest {
    type V = RequestView;

    open spec fn view(&self) -> RequestView {
        RequestView {
            table: opt_table_view(self.table),
            value_column: self.value_column,
            aria_label: self.aria_label@,
        }
    }
}

/// The views of a list of chart requests.
pub open spec fn request_views(v: Seq<ChartRequest>) -> Seq<RequestView> {
    v.map_values(|r: ChartRequest| r@)
}

/// The charts a mode shows: for a trend report, a comparison chart of each of
/// its three sections' tables; for an insight report, the session counts of
/// `### プロジェクト別サマリー` and the use counts of `### ツール使用傾向`; none for
/// a review report.
pub open spec fn requested_charts(mode: HtmlReportMode, md: Seq<char>) -> Seq<RequestView> {
    match mode {
        HtmlReportMode::Trend => Seq::new(
            3,
            |k: int|
                RequestView {
                    table: table_under(lines(md), h2_of(trend_heading(k))),
                    value_column: None,
                    aria_label: trend_heading(k) + "の視覚化"@,
                },
        ),
        HtmlReportMode::Insight => seq![
            RequestView {
                table: table_under(lines(md), "### プロジェクト別サマリー"@),
                value_column: Some(2),
                aria_label: "プロジェクト別サマリーの視覚化"@,
            },
            RequestView {
                table: table_under(lines(md), "### ツール使用傾向"@),
                value_column: Some(1),
                aria_label: "ツール使用傾向の視覚化"@,
            },
        ],
        HtmlReportMode::Review => Seq::empty(),
    }
}

/// A comparison-chart request for the trend section `heading`.
fn trend_request(markdown: &str, heading: &str) -> (r: ChartRequest)
    ensures
        r@ == (RequestView {
            table: table_under(lines(markdown@), h2_of(heading@)),
            value_column: None,
            aria_label: heading@ + "の視覚化"@,
        }),
{
    let mut aria = String::new();
    push_str(&mut aria, heading);
    push_str(&mut aria, "の視覚化");
    assert(aria@ =~= heading@ + "の視覚化"@);
    ChartRequest { table: section_table(markdown, heading), value_column: None, aria_label: aria }
}

/// The charts that `mode` shows for `markdown`, in the order in which
/// `render_visualizations` places them.
pub fn chart_requests(mode: HtmlReportMode, markdown: &str) -> (r: Vec<ChartRequest>)
    ensures
        request_views(r@) == requested_charts(mode, markdown@),
{
    let mut out: Vec<ChartRequest> = Vec::new();
    match mode {
        HtmlReportMode::Trend => {
            out.push(trend_request(markdown, "期間の概要"));
            out.push(trend_request(markdown, "ツール使用の変化"));
            out.push(trend_request(markdown, "活動量の推移"));
        },
        HtmlReportMode::Insight => {
            let mut a1 = String::new();
            push_str(&mut a1, "プロジェクト別サマリーの視覚化");
            assert(a1@ =~= "プロジェクト別サマリーの視覚化"@);
            out.push(
                ChartRequest {
                    table: table_after_heading(markdown, "### プロジェクト別サマリー"),
                    value_column: Some(2),
                    aria_label: a1,
                },
            );
            let mut a2 = String::new();
            push_str(&mut a2, "ツール使用傾向の視覚化");
            assert(a2@ =~= "ツール使用傾向の視覚化"@);
            out.push(
                ChartRequest {
                    table: table_after_heading(markdown, "### ツール使用傾向"),
                    value_column: Some(1),
                    aria_label: a2,
                },
            );
        },
        HtmlReportMode::Review => {},
    }
    assert(request_views(out@) =~= requested_charts(mode, markdown@));
    out
}

/// The panels of `mode` for `markdown`, given the charts drawn for its
/// `chart_requests` (missing charts count as not drawn).
pub open spec fn visualizations(
    mode: HtmlReportMode,
    md: Seq<char>,
    charts: Seq<Option<Seq<char>>>,
) -> Seq<char> {
    match mode {
        HtmlReportMode::Insight => insight_html(
            md,
            if charts.len() > 0 {
                charts[0]
            } else {
                None
            },
            if charts.len() > 1 {
                charts[1]
            } else {
                None
            },
        ),
        HtmlReportMode::Review => review_html(md),
        HtmlReportMode::Trend => trend_html(charts),
    }
}

/// The visual panels of `mode` for `markdown`, with the charts drawn for its
/// `chart_requests`.
pub fn render_visualizations(mode: HtmlReportMode, markdown: &str, charts: &[Option<String>]) -> (r:
    String)
    ensures
        r@ == visualizations(mode, markdown@, chart_views(charts@)),
{
    match mode {
        HtmlReportMode::Insight => {
            let none: Option<String> = None;
            let project = if charts.len() > 0 {
                &charts[0]
            } else {
                &none
            };
            let tools = if charts.len() > 1 {
                &charts[1]
            } else {
                &none
            };
            proof {
                if charts@.len() > 0 {
                    assert(chart_views(charts@)[0] == opt_string_view(charts@[0]));
                }
                if charts@.len() > 1 {
                    assert(chart_views(charts@)[1] == opt_string_view(charts@[1]));
                }
            }
            render_insight_visualizations(markdown, project, tools)
        },
        HtmlReportMode::Review => render_review_visualizations(markdown),
        HtmlReportMode::Trend => render_trend_visualizations(charts),
    }
}

// ---------------------------------------------------------------------------
// Numbers in table cells
// ---------------------------------------------------------------------------

/// A character that may start a number: an ASCII digit or `-`.
pub open spec fn starts_number(c: char) -> bool {
    ('0' <= c && c <= '9') || c == '-'
}

/// A character that may continue a number: an ASCII digit, `.` or `-`.
pub open spec fn in_number(c: char) -> bool {
    ('0' <= c && c <= '9') || c == '.' || c == '-'
}

/// Index of the first character at or after `i` that may start a number.
pub open spec fn number_start(v: Seq<char>, i: int) -> int
    decreases v.len() - i,
{
    if i < 0 || i >= v.len() {
        if i < 0 { 0 } else { v.len() as int }
    } else if starts_number(v[i]) {
        i
    } else {
        number_start(v, i + 1)
    }
}

/// Index of the first character at or after `i` that may not continue a
/// number.
pub open spec fn number_end(v: Seq<char>, i: int) -> int
    decreases v.len() - i,
{
    if i < 0 || i >= v.len() {
        if i < 0 { 0 } else { v.len() as int }
    } else if in_number(v[i]) {
        number_end(v, i + 1)
    } else {
        i
    }
}

proof fn lemma_number_bounds(v: Seq<char>, i: int)
    requires
        0 <= i <= v.len(),
    ensures
        i <= number_start(v, i) <= v.len(),
        i <= number_end(v, i) <= v.len(),
    decreases v.len() - i,
{
    if i < v.len() {
        lemma_number_bounds(v, i + 1);
    }
}

/// The text of the number in a table cell: the cell trimmed and without
/// commas; nothing when it holds `/` or `〜` (a ratio or a range); otherwise
/// the first run of digits, `.` and `-` that starts with a digit or `-`
/// (possibly empty).
pub open spec fn number_text(value: Seq<char>) -> Option<Seq<char>> {
    let v = crate::text::remove_char(trim(value), ',');
    if v.contains('/') || v.contains('〜') {
        None
    } else {
        let a = number_start(v, 0);
        Some(v.subrange(a, number_end(v, a)))
    }
}

/// The text of the number in a table cell, before it is read as a number.
pub fn numeric_text(value: &str) -> (r: Option<String>)
    ensures
        match r {
            Some(x) => number_text(value@) == Some(x@),
            None => number_text(value@) is None,
        },
{
    let raw = chars_of(value);
    let t = crate::text::trimmed(raw.as_slice());
    let mut v: Vec<char> = Vec::new();
    let mut i: usize = 0;
    assert(t@.take(0) =~= Seq::<char>::empty());
    while i < t.len()
        invariant
            i <= t@.len(),
            v@ == crate::text::remove_char(t@.take(i as int), ','),
        decreases t.len() - i,
    {
        assert(t@.take(i + 1).drop_last() =~= t@.take(i as int));
        if t[i] != ',' {
            v.push(t[i]);
        }
        i = i + 1;
    }
    assert(t@.take(t@.len() as int) =~= t@);
    if crate::text::has_char(v.as_slice(), '/') || crate::text::has_char(v.as_slice(), '〜') {
        return None;
    }
    proof {
        lemma_number_bounds(v@, 0);
    }
    let n = v.len();
    let mut a: usize = 0;
    while a < n && !(('0' <= v[a] && v[a] <= '9') || v[a] == '-')
        invariant
            a <= n == v@.len(),
            number_start(v@, a as int) == number_start(v@, 0),
        decreases n - a,
    {
        a = a + 1;
    }
    proof {
        lemma_number_bounds(v@, a as int);
    }
    let mut b: usize = a;
    while b < n && (('0' <= v[b] && v[b] <= '9') || v[b] == '.' || v[b] == '-')
        invariant
            a <= b <= n == v@.len(),
            number_end(v@, b as int) == number_end(v@, a as int),
        decreases n - b,
    {
        b = b + 1;
    }
    Some(crate::text::string_of(&v.as_slice()[a..b]))
}

// ---------------------------------------------------------------------------
// The whole document
// ---------------------------------------------------------------------------

/// The style sheet embedded in every report.
pub const STYLE: &'static str = r#"
:root { color-scheme: light dark; --bg: #f5f7fb; --surface: #ffffff; --text: #172033; --muted: #5c667a; --line: #dbe1ea; --accent: #3157d5; --series-1: #3157d5; --series-2: #7a52c7; --series-3: #13a38b; }
* { box-sizing: border-box; }
body { margin: 0; background: var(--bg); color: var(--text); font-family: system-ui, -apple-system, BlinkMacSystemFont, "Segoe UI", sans-serif; line-height: 1.7; }
.report-shell { width: min(1120px, calc(100% - 32px)); margin: 32px auto 64px; }
.report-header, .visual-panel, .report-content { background: var(--surface); border: 1px solid var(--line); border-radius: 18px; box-shadow: 0 14px 40px rgba(28, 42, 72, .08); }
.report-header { padding: 32px; background: linear-gradient(135deg, #203c9f, #526fe0); color: #fff; }
.report-header h1 { margin: 0; font-size: clamp(1.8rem, 4vw, 3.2rem); line-height: 1.2; }
.eyebrow { margin: 0 0 8px; text-transform: uppercase; letter-spacing: .12em; font-size: .75rem; opacity: .8; }
.visual-panel, .report-content { margin-top: 20px; padding: clamp(20px, 4vw, 40px); }
.visual-panel { overflow-x: auto; }
.visual-panel h2 { margin-top: 0; }
.report-content > h1:first-child { display: none; }
h2 { margin-top: 2.2em; border-bottom: 1px solid var(--line); padding-bottom: .35em; }
h3 { margin-top: 1.7em; }
table { width: 100%; border-collapse: collapse; display: block; overflow-x: auto; }
th, td { padding: 10px 12px; border-bottom: 1px solid var(--line); text-align: left; vertical-align: top; }
th { color: var(--muted); font-size: .86rem; }
code { background: #edf0f7; color: #293653; border-radius: 5px; padding: .12em .35em; }
pre { overflow-x: auto; padding: 16px; background: #172033; color: #edf2ff; border-radius: 12px; }
blockquote { margin-left: 0; padding-left: 16px; border-left: 4px solid var(--accent); color: var(--muted); }
a { color: var(--accent); overflow-wrap: anywhere; }
svg { width: 100%; min-width: 680px; height: auto; min-height: 220px; }
.chart-label { fill: var(--text); font-size: 14px; font-weight: 700; }
.chart-period { fill: var(--muted); font-size: 11px; }
.chart-value { fill: var(--text); font-size: 11px; }
.series-1 { fill: var(--series-1); }
.series-2 { fill: var(--series-2); }
.series-3 { fill: var(--series-3); }
.alact-flow { display: grid; grid-template-columns: repeat(4, minmax(0, 1fr)); gap: 12px; padding: 0; list-style: none; counter-reset: alact; }
.alact-flow li { min-height: 100px; padding: 18px; border: 1px solid var(--line); border-radius: 14px; background: color-mix(in srgb, var(--accent) 8%, var(--surface)); counter-increment: alact; }
.alact-flow li::before { content: counter(alact, upper-alpha); display: block; margin-bottom: 8px; color: var(--accent); font-size: 1.25rem; font-weight: 800; }
.metrics-grid { display: grid; grid-template-columns: repeat(auto-fit, minmax(180px, 1fr)); gap: 14px; margin: 0; }
.metric-card { padding: 18px; border: 1px solid var(--line); border-radius: 14px; background: color-mix(in srgb, var(--accent) 7%, var(--surface)); }
.metric-card dt { color: var(--muted); font-size: .82rem; }
.metric-card dd { margin: 8px 0 0; font-size: clamp(1.25rem, 3vw, 2rem); font-weight: 800; overflow-wrap: anywhere; }
.achievement-grid { display: grid; grid-template-columns: repeat(auto-fit, minmax(260px, 1fr)); gap: 14px; counter-reset: achievement; }
.achievement-card { padding: 20px; border: 1px solid var(--line); border-radius: 14px; counter-increment: achievement; }
.achievement-card h3 { margin-top: 0; }
.achievement-card h3::before { content: counter(achievement, decimal-leading-zero); display: block; color: var(--accent); font-size: .8rem; font-weight: 800; }
.achievement-card dl { display: grid; grid-template-columns: minmax(80px, auto) 1fr; gap: 8px 12px; margin: 0; }
.achievement-card dt { color: var(--muted); font-size: .82rem; font-weight: 700; }
.achievement-card dd { margin: 0; }
.review-flow { display: flex; flex-wrap: wrap; gap: 10px; padding: 0; list-style: none; }
.review-flow li { flex: 1 1 180px; padding: 14px 16px; border-left: 4px solid var(--accent); background: color-mix(in srgb, var(--accent) 7%, var(--surface)); }
@media (prefers-color-scheme: dark) { :root { --bg: #101522; --surface: #181f2d; --text: #edf2ff; --muted: #aeb9cd; --line: #303a4d; --accent: #93a9ff; } code { background: #252f42; color: #edf2ff; } }
@media (max-width: 600px) { .report-shell { width: min(100% - 16px, 1120px); margin-top: 8px; } .report-header, .visual-panel, .report-content { border-radius: 12px; } .report-header { padding: 24px 20px; } .alact-flow { grid-template-columns: 1fr; } }
@media print { :root { --bg: #fff; --surface: #fff; --text: #000; --muted: #444; --line: #bbb; } body { background: #fff; } .report-shell { width: 100%; margin: 0; } .report-header, .visual-panel, .report-content { box-shadow: none; break-inside: avoid; } a { color: #000; text-decoration: underline; } }
"#;

/// The style sheet holds no `<` and starts with a line break. Verus learns a
/// literal's characters only from the literal itself, so the sheet is spelled
/// out once more here; a different text would not prove equal to `STYLE`.
pub proof fn lemma_style_plain()
    ensures
        forall|k: int| 0 <= k < STYLE@.len() ==> STYLE@[k] != '<',
        STYLE@.len() > 0 && STYLE@[0] == '\n',
{
    reveal_strlit(r#"
:root { color-scheme: light dark; --bg: #f5f7fb; --surface: #ffffff; --text: #172033; --muted: #5c667a; --line: #dbe1ea; --accent: #3157d5; --series-1: #3157d5; --series-2: #7a52c7; --series-3: #13a38b; }
* { box-sizing: border-box; }
body { margin: 0; background: var(--bg); color: var(--text); font-family: system-ui, -apple-system, BlinkMacSystemFont, "Segoe UI", sans-serif; line-height: 1.7; }
.report-shell { width: min(1120px, calc(100% - 32px)); margin: 32px auto 64px; }
.report-header, .visual-panel, .report-content { background: var(--surface); border: 1px solid var(--line); border-radius: 18px; box-shadow: 0 14px 40px rgba(28, 42, 72, .08); }
.report-header { padding: 32px; background: linear-gradient(135deg, #203c9f, #526fe0); color: #fff; }
.report-header h1 { margin: 0; font-size: clamp(1.8rem, 4vw, 3.2rem); line-height: 1.2; }
.eyebrow { margin: 0 0 8px; text-transform: uppercase; letter-spacing: .12em; font-size: .75rem; opacity: .8; }
.visual-panel, .report-content { margin-top: 20px; padding: clamp(20px, 4vw, 40px); }
.visual-panel { overflow-x: auto; }
.visual-panel h2 { margin-top: 0; }
.report-content > h1:first-child { display: none; }
h2 { margin-top: 2.2em; border-bottom: 1px solid var(--line); padding-bottom: .35em; }
h3 { margin-top: 1.7em; }
table { width: 100%; border-collapse: collapse; display: block; overflow-x: auto; }
th, td { padding: 10px 12px; border-bottom: 1px solid var(--line); text-align: left; vertical-align: top; }
th { color: var(--muted); font-size: .86rem; }
code { background: #edf0f7; color: #293653; border-radius: 5px; padding: .12em .35em; }
pre { overflow-x: auto; padding: 16px; background: #172033; color: #edf2ff; border-radius: 12px; }
blockquote { margin-left: 0; padding-left: 16px; border-left: 4px solid var(--accent); color: var(--muted); }
a { color: var(--accent); overflow-wrap: anywhere; }
svg { width: 100%; min-width: 680px; height: auto; min-height: 220px; }
.chart-label { fill: var(--text); font-size: 14px; font-weight: 700; }
.chart-period { fill: var(--muted); font-size: 11px; }
.chart-value { fill: var(--text); font-size: 11px; }
.series-1 { fill: var(--series-1); }
.series-2 { fill: var(--series-2); }
.series-3 { fill: var(--series-3); }
.alact-flow { display: grid; grid-template-columns: repeat(4, minmax(0, 1fr)); gap: 12px; padding: 0; list-style: none; counter-reset: alact; }
.alact-flow li { min-height: 100px; padding: 18px; border: 1px solid var(--line); border-radius: 14px; background: color-mix(in srgb, var(--accent) 8%, var(--surface)); counter-increment: alact; }
.alact-flow li::before { content: counter(alact, upper-alpha); display: block; margin-bottom: 8px; color: var(--accent); font-size: 1.25rem; font-weight: 800; }
.metrics-grid { display: grid; grid-template-columns: repeat(auto-fit, minmax(180px, 1fr)); gap: 14px; margin: 0; }
.metric-card { padding: 18px; border: 1px solid var(--line); border-radius: 14px; background: color-mix(in srgb, var(--accent) 7%, var(--surface)); }
.metric-card dt { color: var(--muted); font-size: .82rem; }
.metric-card dd { margin: 8px 0 0; font-size: clamp(1.25rem, 3vw, 2rem); font-weight: 800; overflow-wrap: anywhere; }
.achievement-grid { display: grid; grid-template-columns: repeat(auto-fit, minmax(260px, 1fr)); gap: 14px; counter-reset: achievement; }
.achievement-card { padding: 20px; border: 1px solid var(--line); border-radius: 14px; counter-increment: achievement; }
.achievement-card h3 { margin-top: 0; }
.achievement-card h3::before { content: counter(achievement, decimal-leading-zero); display: block; color: var(--accent); font-size: .8rem; font-weight: 800; }
.achievement-card dl { display: grid; grid-template-columns: minmax(80px, auto) 1fr; gap: 8px 12px; margin: 0; }
.achievement-card dt { color: var(--muted); font-size: .82rem; font-weight: 700; }
.achievement-card dd { margin: 0; }
.review-flow { display: flex; flex-wrap: wrap; gap: 10px; padding: 0; list-style: none; }
.review-flow li { flex: 1 1 180px; padding: 14px 16px; border-left: 4px solid var(--accent); background: color-mix(in srgb, var(--accent) 7%, var(--surface)); }
@media (prefers-color-scheme: dark) { :root { --bg: #101522; --surface: #181f2d; --text: #edf2ff; --muted: #aeb9cd; --line: #303a4d; --accent: #93a9ff; } code { background: #252f42; color: #edf2ff; } }
@media (max-width: 600px) { .report-shell { width: min(100% - 16px, 1120px); margin-top: 8px; } .report-header, .visual-panel, .report-content { border-radius: 12px; } .report-header { padding: 24px 20px; } .alact-flow { grid-template-columns: 1fr; } }
@media print { :root { --bg: #fff; --surface: #fff; --text: #000; --muted: #444; --line: #bbb; } body { background: #fff; } .report-shell { width: 100%; margin: 0; } .report-header, .visual-panel, .report-content { box-shadow: none; break-inside: avoid; } a { color: #000; text-decoration: underline; } }
"#);
}

/// The document's title: the first `# ` heading, or `nippo report`.
pub open spec fn doc_title(md: Seq<char>) -> Seq<char> {
    match crate::sections::title_from(lines(md), 0) {
        Some(t) => t,
        None => "nippo report"@,
    }
}

/// A self-contained HTML document: escaped title, embedded style sheet, the
/// visual panels, then the rendered Markdown body.
pub open spec fn document_html(title: Seq<char>, vis: Seq<char>, body: Seq<char>) -> Seq<char> {
    "<!doctype html>\n<html lang=\"ja\">\n<head>\n<meta charset=\"utf-8\">\n<meta name=\"viewport\" content=\"width=device-width, initial-scale=1\">\n<meta http-equiv=\"Content-Security-Policy\" content=\"default-src 'none'; style-src 'unsafe-inline'; img-src data:; base-uri 'none'; form-action 'none'\">\n<title>"@
        + escape(title) + "</title>\n<style>"@ + STYLE@
        + "</style>\n</head>\n<body>\n<main class=\"report-shell\">\n<header class=\"report-header\"><p class=\"eyebrow\">nippo visual report</p><h1>"@
        + escape(title) + "</h1></header>\n"@ + vis + "\n<article class=\"report-content\">"@ + body
        + "</article>\n</main>\n</body>\n</html>\n"@
}

/// The self-contained HTML of a Markdown report in `mode`, with the charts
/// drawn for its `chart_requests`. When no chart holds `<script`, `<link` or
/// `<img`, neither does the page.
pub fn render_document(mode: HtmlReportMode, markdown: &str, charts: &[Option<String>]) -> (r:
    String)
    ensures
        r@ == document_html(
            doc_title(markdown@),
            visualizations(mode, markdown@, chart_views(charts@)),
            crate::markdown::markdown_html(markdown@),
        ),
        crate::safety::charts_safe(chart_views(charts@)) ==> crate::safety::tag_safe(r@),
{
    let body = crate::markdown::render_markdown(markdown);
    assemble_document(mode, markdown, charts, body.as_str())
}

/// The full HTML page around an already rendered Markdown body: the title,
/// the style sheet, the visualization panels of `mode` and `body`. When
/// neither the charts nor the body hold `<script`, `<link` or `<img`, the page
/// holds none.
pub fn assemble_document(
    mode: HtmlReportMode,
    markdown: &str,
    charts: &[Option<String>],
    body: &str,
) -> (r: String)
    ensures
        r@ == document_html(
            doc_title(markdown@),
            visualizations(mode, markdown@, chart_views(charts@)),
            body@,
        ),
        crate::safety::charts_safe(chart_views(charts@)) && crate::safety::tag_safe(body@)
            ==> crate::safety::tag_safe(r@),
{
    let title = match crate::sections::document_title(markdown) {
        Some(t) => t,
        None => {
            let mut t = String::new();
            push_str(&mut t, "nippo report");
            assert(t@ =~= "nippo report"@);
            t
        },
    };
    let panels = render_visualizations(mode, markdown, charts);
    let tv = chars_of(title.as_str());
    let mut doc = String::new();
    push_str(
        &mut doc,
        "<!doctype html>\n<html lang=\"ja\">\n<head>\n<meta charset=\"utf-8\">\n<meta name=\"viewport\" content=\"width=device-width, initial-scale=1\">\n<meta http-equiv=\"Content-Security-Policy\" content=\"default-src 'none'; style-src 'unsafe-inline'; img-src data:; base-uri 'none'; form-action 'none'\">\n<title>",
    );
    push_escaped(&mut doc, tv.as_slice());
    push_str(&mut doc, "</title>\n<style>");
    push_str(&mut doc, STYLE);
    push_str(
        &mut doc,
        "</style>\n</head>\n<body>\n<main class=\"report-shell\">\n<header class=\"report-header\"><p class=\"eyebrow\">nippo visual report</p><h1>",
    );
    push_escaped(&mut doc, tv.as_slice());
    push_str(&mut doc, "</h1></header>\n");
    push_str(&mut doc, panels.as_str());
    push_str(&mut doc, "\n<article class=\"report-content\">");
    push_str(&mut doc, body);
    push_str(&mut doc, "</article>\n</main>\n</body>\n</html>\n");
    assert(doc@ =~= document_html(
        doc_title(markdown@),
        visualizations(mode, markdown@, chart_views(charts@)),
        body@,
    ));
    proof {
        if crate::safety::charts_safe(chart_views(charts@)) && crate::safety::tag_safe(body@) {
            crate::safety::lemma_visualizations(mode, markdown@, chart_views(charts@));
            crate::safety::lemma_document(
                doc_title(markdown@),
                visualizations(mode, markdown@, chart_views(charts@)),
                body@,
            );
        }
    }
    doc
}

/// One metric card per table row after the header, in order: when every row
/// has at least two cells, the pairs are the first two cells of rows 1, 2, ...
pub proof fn lemma_metric_pairs_rows(rows: Seq<Seq<Seq<char>>>)
    requires
        rows.len() >= 1,
        forall|j: int| 0 <= j < rows.len() ==> (#[trigger] rows[j]).len() >= 2,
    ensures
        metric_pairs(rows).len() == rows.len() - 1,
        forall|k: int|
            0 <= k < rows.len() - 1 ==> #[trigger] metric_pairs(rows)[k] == (
                rows[k + 1][0],
                rows[k + 1][1],
            ),
    decreases rows.len(),
{
    if rows.len() > 1 {
        let init = rows.drop_last();
        assert forall|j: int| 0 <= j < init.len() implies (#[trigger] init[j]).len() >= 2 by {
            assert(init[j] == rows[j]);
        }
        lemma_metric_pairs_rows(init);
        assert forall|k: int| 0 <= k < rows.len() - 1 implies #[trigger] metric_pairs(rows)[k] == (
            rows[k + 1][0],
            rows[k + 1][1],
        ) by {
            if k < rows.len() - 2 {
                assert(metric_pairs(rows)[k] == metric_pairs(init)[k]);
                assert(init[k + 1] == rows[k + 1]);
            }
        }
    }
}

proof fn lemma_find_heading_first(ls: Seq<Seq<char>>, h: Seq<char>, i: int, k: int)
    requires
        0 <= i <= k < ls.len(),
        trim(ls[k]) == h,
        forall|j: int| i <= j < k ==> trim(#[trigger] ls[j]) != h,
    ensures
        find_heading(ls, h, i) == Some(k),
    decreases k - i,
{
    if i < k {
        lemma_find_heading_first(ls, h, i + 1, k);
    }
}

proof fn lemma_run_end_exact(ls: Seq<Seq<char>>, i: int, j: int, t: LineTest)
    requires
        0 <= i <= j <= ls.len(),
        forall|m: int| i <= m < j ==> crate::sections::passes(t, #[trigger] ls[m]),
        j == ls.len() || !crate::sections::passes(t, ls[j]),
    ensures
        crate::sections::run_end(ls, i, t) == j,
    decreases j - i,
{
    if i < j {
        lemma_run_end_exact(ls, i + 1, j, t);
    }
}

proof fn lemma_run_end_past(ls: Seq<Seq<char>>, i: int, j: int, t: LineTest)
    requires
        0 <= i <= j <= ls.len(),
        forall|m: int| i <= m < j ==> crate::sections::passes(t, #[trigger] ls[m]),
    ensures
        j <= crate::sections::run_end(ls, i, t) <= ls.len(),
    decreases ls.len() - i,
{
    if i < ls.len() && crate::sections::passes(t, ls[i]) {
        if i < j {
            lemma_run_end_past(ls, i + 1, j, t);
        } else {
            lemma_run_end_past(ls, i + 1, i + 1, t);
        }
    }
}

/// The table under a heading line: when the first line reading `h` (after
/// trimming) is followed directly by the pipe lines `t` (at least two rows of
/// cells once the alignment row is left out), and the line after them, if
/// any, is not a pipe line, the table is those rows.
pub proof fn lemma_table_under_heading(ls: Seq<Seq<char>>, h: Seq<char>, k: int, t: Seq<Seq<char>>)
    requires
        0 <= k,
        k + 1 + t.len() <= ls.len(),
        trim(ls[k]) == h,
        forall|j: int| 0 <= j < k ==> trim(#[trigger] ls[j]) != h,
        t == ls.subrange(k + 1, k + 1 + t.len()),
        t.len() >= 2,
        forall|m: int| 0 <= m < t.len() ==> starts_with(crate::text::trim_start(#[trigger] t[m]), seq!['|']),
        k + 1 + t.len() == ls.len() || !starts_with(
            crate::text::trim_start(ls[k + 1 + t.len()]),
            seq!['|'],
        ),
        crate::sections::table_rows(t).len() >= 2,
    ensures
        table_under(ls, h) == Some(crate::sections::table_rows(t)),
{
    lemma_find_heading_first(ls, h, 0, k);
    let n = t.len();
    assert forall|m: int| k + 1 <= m < k + 1 + n implies crate::sections::passes(
        LineTest::NoIndentedHash,
        #[trigger] ls[m],
    ) by {
        let l = crate::text::trim_start(ls[m]);
        assert(ls[m] == t[m - k - 1]);
        assert(l.subrange(0, 1)[0] == l[0]);
        if starts_with(l, seq!['#']) {
            assert(l.subrange(0, 1)[0] == '#');
        }
    }
    lemma_run_end_past(ls, k + 1, k + 1 + n, LineTest::NoIndentedHash);
    let e = crate::sections::run_end(ls, k + 1, LineTest::NoIndentedHash);
    let w = ls.subrange(k + 1, e);
    assert(w.subrange(0, n as int) =~= t);
    assert(!crate::sections::passes(LineTest::NoIndentedPipe, w[0]));
    lemma_run_end_exact(w, 0, 0, LineTest::NoIndentedPipe);
    assert forall|m: int| 0 <= m < n implies crate::sections::passes(
        LineTest::IndentedPipe,
        #[trigger] w[m],
    ) by {
        assert(w[m] == t[m]);
    }
    if n < w.len() {
        assert(w[n as int] == ls[k + 1 + n]);
    }
    lemma_run_end_exact(w, 0, n as int, LineTest::IndentedPipe);
}

/// An insight report's project chart is drawn from the table under the line
/// `### プロジェクト別サマリー`: when the first such line is followed directly by
/// a pipe table of at least two rows, the request carries those rows.
pub proof fn lemma_project_chart_table(md: Seq<char>, k: int, t: Seq<Seq<char>>)
    requires
        0 <= k,
        k + 1 + t.len() <= lines(md).len(),
        trim(lines(md)[k]) == "### プロジェクト別サマリー"@,
        forall|j: int| 0 <= j < k ==> trim(#[trigger] lines(md)[j]) != "### プロジェクト別サマリー"@,
        t == lines(md).subrange(k + 1, k + 1 + t.len()),
        t.len() >= 2,
        forall|m: int| 0 <= m < t.len() ==> starts_with(crate::text::trim_start(#[trigger] t[m]), seq!['|']),
        k + 1 + t.len() == lines(md).len() || !starts_with(
            crate::text::trim_start(lines(md)[k + 1 + t.len()]),
            seq!['|'],
        ),
        crate::sections::table_rows(t).len() >= 2,
    ensures
        requested_charts(HtmlReportMode::Insight, md)[0].table == Some(crate::sections::table_rows(t)),
        requested_charts(HtmlReportMode::Insight, md)[0].value_column == Some(2usize),
{
    lemma_table_under_heading(lines(md), "### プロジェクト別サマリー"@, k, t);
}

/// An insight report's tool chart is drawn from the table under the line
/// `### ツール使用傾向`, in the same way.
pub proof fn lemma_tool_chart_table(md: Seq<char>, k: int, t: Seq<Seq<char>>)
    requires
        0 <= k,
        k + 1 + t.len() <= lines(md).len(),
        trim(lines(md)[k]) == "### ツール使用傾向"@,
        forall|j: int| 0 <= j < k ==> trim(#[trigger] lines(md)[j]) != "### ツール使用傾向"@,
        t == lines(md).subrange(k + 1, k + 1 + t.len()),
        t.len() >= 2,
        forall|m: int| 0 <= m < t.len() ==> starts_with(crate::text::trim_start(#[trigger] t[m]), seq!['|']),
        k + 1 + t.len() == lines(md).len() || !starts_with(
            crate::text::trim_start(lines(md)[k + 1 + t.len()]),
            seq!['|'],
        ),
        crate::sections::table_rows(t).len() >= 2,
    ensures
        requested_charts(HtmlReportMode::Insight, md)[1].table == Some(crate::sections::table_rows(t)),
        requested_charts(HtmlReportMode::Insight, md)[1].value_column == Some(1usize),
{
    lemma_table_under_heading(lines(md), "### ツール使用傾向"@, k, t);
}

} // verus!
