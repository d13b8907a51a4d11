//! The rendered page loads and runs nothing: it holds no `<script`, `<link`
//! or `<img`, as long as the chart strings handed in hold none. Every part of
//! the page is either fixed markup, escaped text (which holds no `<`), a chart
//! string, or the sanitized Markdown body; the lemmas here show that gluing
//! them together creates no such tag across a seam.
use vstd::prelude::*;
use crate::markdown::occurs;
use crate::render::{
    achievement_card, achievement_cards, chart_panel, document_html, field_list, insight_html,
    insight_phases, labeled_cards, metric_card, metric_cards, panel, phase_items,
    review_achievement_panel, review_achievements, review_flow_panel, review_html,
    review_metrics_panel, review_stages, stage, trend_html, trend_panel, trend_title,
    visualizations, HtmlReportMode, STYLE,
};
use crate::sections::SubsectionView;
use crate::text::{escape, is_markup_char, lemma_escape_inert};

verus! {

/// `s` holds no `<script`, no `<link` and no `<img`.
pub open spec fn tag_safe(s: Seq<char>) -> bool {
    !occurs(s, "<script"@) && !occurs(s, "<link"@) && !occurs(s, "<img"@)
}

/// A character of `script`, `link` or `img`.
pub open spec fn pattern_char(c: char) -> bool {
    c == 's' || c == 'c' || c == 'r' || c == 'i' || c == 'p' || c == 't' || c == 'l' || c == 'n'
        || c == 'k' || c == 'm' || c == 'g'
}

/// Gluing `a` and `b` cannot make one of the tags across the seam: one side
/// is empty, `a` ends with a character that no tag holds, or `b` starts with
/// one that no tag holds after its `<`.
pub open spec fn joinable(a: Seq<char>, b: Seq<char>) -> bool {
    ||| a.len() == 0
    ||| b.len() == 0
    ||| !(a.last() == '<' || pattern_char(a.last()))
    ||| !pattern_char(b[0])
}

proof fn lemma_join_pattern(a: Seq<char>, b: Seq<char>, p: Seq<char>)
    requires
        !occurs(a, p),
        !occurs(b, p),
        joinable(a, b),
        p.len() >= 1,
        p[0] == '<',
        forall|k: int| 1 <= k < p.len() ==> pattern_char(#[trigger] p[k]),
    ensures
        !occurs(a + b, p),
{
    let s = a + b;
    if occurs(s, p) {
        let i = choose|i: int|
            0 <= i && i + p.len() <= s.len() && #[trigger] s.subrange(i, i + p.len()) == p;
        let w = s.subrange(i, i + p.len());
        if i + p.len() <= a.len() {
            assert(a.subrange(i, i + p.len()) =~= w);
        } else if i >= a.len() {
            let j = i - a.len();
            assert(b.subrange(j, j + p.len()) =~= w);
        } else {
            let k1 = a.len() - 1 - i;
            let k2 = a.len() - i;
            assert(w[k1] == s[a.len() - 1]);
            assert(w[k2] == s[a.len() as int]);
            assert(s[a.len() as int] == b[0]);
            if k1 > 0 {
                assert(pattern_char(p[k1]));
            }
            assert(pattern_char(p[k2]));
        }
    }
}

/// Gluing two parts without a tag, at a seam that makes none, gives a text
/// without a tag; the result starts as `a` does and ends as `b` does.
pub proof fn lemma_cat(a: Seq<char>, b: Seq<char>)
    requires
        tag_safe(a),
        tag_safe(b),
        joinable(a, b),
    ensures
        tag_safe(a + b),
        a.len() > 0 ==> (a + b)[0] == a[0],
        b.len() > 0 ==> (a + b).last() == b.last(),
        a.len() == 0 ==> a + b == b,
        b.len() == 0 ==> a + b == a,
{
    reveal_strlit("<script");
    reveal_strlit("<link");
    reveal_strlit("<img");
    lemma_join_pattern(a, b, "<script"@);
    lemma_join_pattern(a, b, "<link"@);
    lemma_join_pattern(a, b, "<img"@);
    if a.len() == 0 {
        assert(a + b =~= b);
    }
    if b.len() == 0 {
        assert(a + b =~= a);
    }
}

/// A text without `<` holds no tag.
pub proof fn lemma_no_lt(s: Seq<char>)
    requires
        forall|k: int| 0 <= k < s.len() ==> s[k] != '<',
    ensures
        tag_safe(s),
{
    reveal_strlit("<script");
    reveal_strlit("<link");
    reveal_strlit("<img");
    assert forall|i: int| 0 <= i && i + 7 <= s.len() implies #[trigger] s.subrange(i, i + 7)
        != "<script"@ by {
        assert(s.subrange(i, i + 7)[0] == s[i]);
    }
    assert forall|i: int| 0 <= i && i + 5 <= s.len() implies #[trigger] s.subrange(i, i + 5)
        != "<link"@ by {
        assert(s.subrange(i, i + 5)[0] == s[i]);
    }
    assert forall|i: int| 0 <= i && i + 4 <= s.len() implies #[trigger] s.subrange(i, i + 4)
        != "<img"@ by {
        assert(s.subrange(i, i + 4)[0] == s[i]);
    }
}

/// Escaped text holds no tag.
pub proof fn lemma_escaped(s: Seq<char>)
    ensures
        tag_safe(escape(s)),
{
    lemma_escape_inert(s);
    assert forall|k: int| 0 <= k < escape(s).len() implies escape(s)[k] != '<' by {
        assert(!is_markup_char(escape(s)[k]));
    }
    lemma_no_lt(escape(s));
}

/// Where `s` opens `<sc`, `<lin` or `<im` at `i`.
pub open spec fn opens_tag_at(s: Seq<char>, i: int) -> bool {
    s[i] == '<' && ((s[i + 1] == 's' && s[i + 2] == 'c') || (s[i + 1] == 'l' && s[i + 2] == 'i'
        && s[i + 3] == 'n') || (s[i + 1] == 'i' && s[i + 2] == 'm'))
}

/// A text that nowhere opens `<sc`, `<lin` or `<im` holds no tag.
pub proof fn lemma_fixed(s: Seq<char>)
    requires
        forall|i: int| 0 <= i && i + 3 < s.len() ==> !opens_tag_at(s, i),
    ensures
        tag_safe(s),
{
    reveal_strlit("<script");
    reveal_strlit("<link");
    reveal_strlit("<img");
    assert forall|i: int| 0 <= i && i + 7 <= s.len() implies #[trigger] s.subrange(i, i + 7)
        != "<script"@ by {
        if s.subrange(i, i + 7) == "<script"@ {
            assert(s.subrange(i, i + 7)[0] == s[i]);
            assert(s.subrange(i, i + 7)[1] == s[i + 1]);
            assert(s.subrange(i, i + 7)[2] == s[i + 2]);
            assert(!opens_tag_at(s, i));
        }
    }
    assert forall|i: int| 0 <= i && i + 5 <= s.len() implies #[trigger] s.subrange(i, i + 5)
        != "<link"@ by {
        if s.subrange(i, i + 5) == "<link"@ {
            assert(s.subrange(i, i + 5)[0] == s[i]);
            assert(s.subrange(i, i + 5)[1] == s[i + 1]);
            assert(s.subrange(i, i + 5)[2] == s[i + 2]);
            assert(s.subrange(i, i + 5)[3] == s[i + 3]);
            assert(!opens_tag_at(s, i));
        }
    }
    assert forall|i: int| 0 <= i && i + 4 <= s.len() implies #[trigger] s.subrange(i, i + 4)
        != "<img"@ by {
        if s.subrange(i, i + 4) == "<img"@ {
            assert(s.subrange(i, i + 4)[0] == s[i]);
            assert(s.subrange(i, i + 4)[1] == s[i + 1]);
            assert(s.subrange(i, i + 4)[2] == s[i + 2]);
            assert(s.subrange(i, i + 4)[3] == s[i + 3]);
            assert(!opens_tag_at(s, i));
        }
    }
}

/// Markup that starts with `<` and ends with `>`, or nothing.
pub open spec fn block(s: Seq<char>) -> bool {
    s.len() == 0 || (s[0] == '<' && s.last() == '>')
}

/// A panel holds no tag when its title and content hold none.
pub proof fn lemma_panel(title: Seq<char>, content: Seq<char>)
    requires
        tag_safe(title),
        tag_safe(content),
    ensures
        tag_safe(panel(title, content)),
        block(panel(title, content)),
        panel(title, content).len() > 0,
{
    let l1 = "<section class=\"visual-panel\"><h2>"@;
    let l2 = "</h2>"@;
    let l3 = "</section>"@;
    reveal_strlit("<section class=\"visual-panel\"><h2>");
    reveal_strlit("</h2>");
    reveal_strlit("</section>");
    lemma_fixed(l1);
    lemma_fixed(l2);
    lemma_fixed(l3);
    lemma_cat(l1, title);
    lemma_cat(l1 + title, l2);
    lemma_cat(l1 + title + l2, content);
    lemma_cat(l1 + title + l2 + content, l3);
}

/// A metric card holds no tag, and is markup.
pub proof fn lemma_metric_card(p: (Seq<char>, Seq<char>))
    ensures
        tag_safe(metric_card(p)),
        block(metric_card(p)),
        metric_card(p).len() > 0,
{
    let l1 = "<div class=\"metric-card\"><dt>"@;
    let l2 = "</dt><dd>"@;
    let l3 = "</dd></div>"@;
    reveal_strlit("<div class=\"metric-card\"><dt>");
    reveal_strlit("</dt><dd>");
    reveal_strlit("</dd></div>");
    lemma_fixed(l1);
    lemma_fixed(l2);
    lemma_fixed(l3);
    lemma_escaped(p.0);
    lemma_escaped(p.1);
    lemma_cat(l1, escape(p.0));
    lemma_cat(l1 + escape(p.0), l2);
    lemma_cat(l1 + escape(p.0) + l2, escape(p.1));
    lemma_cat(l1 + escape(p.0) + l2 + escape(p.1), l3);
}

/// The metric cards hold no tag, and are markup.
pub proof fn lemma_metric_cards(ms: Seq<(Seq<char>, Seq<char>)>)
    ensures
        tag_safe(metric_cards(ms)),
        block(metric_cards(ms)),
    decreases ms.len(),
{
    if ms.len() == 0 {
        lemma_no_lt(metric_cards(ms));
    } else {
        lemma_metric_cards(ms.drop_last());
        lemma_metric_card(ms.last());
        lemma_cat(metric_cards(ms.drop_last()), metric_card(ms.last()));
    }
}

/// A labelled card grid holds no tag, and is markup.
pub proof fn lemma_labeled_cards(ms: Seq<(Seq<char>, Seq<char>)>, aria: Seq<char>)
    ensures
        labeled_cards(ms, aria) matches Some(c) ==> tag_safe(c) && block(c),
{
    if labeled_cards(ms, aria) is Some {
        let l1 = "<dl class=\"metrics-grid\" aria-label=\""@;
        let l2 = "\">"@;
        let l3 = "</dl>"@;
        reveal_strlit("<dl class=\"metrics-grid\" aria-label=\"");
        reveal_strlit("\">");
        reveal_strlit("</dl>");
        lemma_fixed(l1);
        lemma_fixed(l2);
        lemma_fixed(l3);
        lemma_escaped(aria);
        lemma_metric_cards(ms);
        let e = escape(aria);
        let c = metric_cards(ms);
        lemma_cat(l1, e);
        lemma_cat(l1 + e, l2);
        lemma_cat(l1 + e + l2, c);
        lemma_cat(l1 + e + l2 + c, l3);
    }
}

/// The `<dt>`/`<dd>` pairs hold no tag, and are markup.
pub proof fn lemma_field_list(fs: Seq<(Seq<char>, Seq<char>)>)
    ensures
        tag_safe(field_list(fs)),
        block(field_list(fs)),
    decreases fs.len(),
{
    if fs.len() == 0 {
        lemma_no_lt(field_list(fs));
    } else {
        let rest = field_list(fs.drop_last());
        let l1 = "<dt>"@;
        let l2 = "</dt><dd>"@;
        let l3 = "</dd>"@;
        reveal_strlit("<dt>");
        reveal_strlit("</dt><dd>");
        reveal_strlit("</dd>");
        lemma_fixed(l1);
        lemma_fixed(l2);
        lemma_fixed(l3);
        lemma_field_list(fs.drop_last());
        let e1 = escape(fs.last().0);
        let e2 = escape(fs.last().1);
        lemma_escaped(fs.last().0);
        lemma_escaped(fs.last().1);
        lemma_cat(rest, l1);
        lemma_cat(rest + l1, e1);
        lemma_cat(rest + l1 + e1, l2);
        lemma_cat(rest + l1 + e1 + l2, e2);
        lemma_cat(rest + l1 + e1 + l2 + e2, l3);
        if rest.len() == 0 {
            assert((rest + l1 + e1 + l2 + e2 + l3)[0] == '<');
        }
    }
}

/// An achievement card holds no tag, and is markup.
pub proof fn lemma_achievement_card(a: SubsectionView)
    ensures
        tag_safe(achievement_card(a)),
        block(achievement_card(a)),
        achievement_card(a).len() > 0,
{
    let l1 = "<article class=\"achievement-card\"><h3>"@;
    let l2 = "</h3><dl>"@;
    let l3 = "</dl></article>"@;
    reveal_strlit("<article class=\"achievement-card\"><h3>");
    reveal_strlit("</h3><dl>");
    reveal_strlit("</dl></article>");
    lemma_fixed(l1);
    lemma_fixed(l2);
    lemma_fixed(l3);
    let e = escape(crate::sections::without_order_prefix(a.heading));
    lemma_escaped(crate::sections::without_order_prefix(a.heading));
    lemma_field_list(a.fields);
    let f = field_list(a.fields);
    lemma_cat(l1, e);
    lemma_cat(l1 + e, l2);
    lemma_cat(l1 + e + l2, f);
    lemma_cat(l1 + e + l2 + f, l3);
}

/// The achievement cards hold no tag, and are markup.
pub proof fn lemma_achievement_cards(s: Seq<SubsectionView>)
    ensures
        tag_safe(achievement_cards(s)),
        block(achievement_cards(s)),
    decreases s.len(),
{
    if s.len() == 0 {
        lemma_no_lt(achievement_cards(s));
    } else {
        lemma_achievement_cards(s.drop_last());
        lemma_achievement_card(s.last());
        lemma_cat(achievement_cards(s.drop_last()), achievement_card(s.last()));
    }
}

/// A list item of escaped text holds no tag, and is markup.
proof fn lemma_item(t: Seq<char>)
    ensures
        tag_safe("<li>"@ + escape(t) + "</li>"@),
        block("<li>"@ + escape(t) + "</li>"@),
{
    reveal_strlit("<li>");
    reveal_strlit("</li>");
    lemma_fixed("<li>"@);
    lemma_fixed("</li>"@);
    lemma_escaped(t);
    lemma_cat("<li>"@, escape(t));
    lemma_cat("<li>"@ + escape(t), "</li>"@);
}

/// The panels of a review report hold no tag, and are markup.
pub proof fn lemma_review_html(md: Seq<char>)
    ensures
        tag_safe(review_html(md)),
        block(review_html(md)),
{
    // key metrics
    let m = review_metrics_panel(md);
    match crate::sections::table_under(crate::text::lines(md), crate::sections::h2_of("定量データ"@)) {
        Some(t) => {
            let pairs = crate::render::metric_pairs(t);
            lemma_labeled_cards(pairs, "定量データの視覚化"@);
            match labeled_cards(pairs, "定量データの視覚化"@) {
                Some(c) => {
                    reveal_strlit("主要指標");
                    lemma_no_lt("主要指標"@);
                    lemma_panel("主要指標"@, c);
                },
                None => {
                    lemma_no_lt(m);
                },
            }
        },
        None => {
            lemma_no_lt(m);
        },
    }
    // achievements
    let a = review_achievement_panel(md);
    if review_achievements(md).len() == 0 {
        lemma_no_lt(a);
    } else {
        let l1 = "<div class=\"achievement-grid\">"@;
        let l2 = "</div>"@;
        reveal_strlit("<div class=\"achievement-grid\">");
        reveal_strlit("</div>");
        lemma_fixed(l1);
        lemma_fixed(l2);
        let cards = achievement_cards(review_achievements(md));
        lemma_achievement_cards(review_achievements(md));
        lemma_cat(l1, cards);
        lemma_cat(l1 + cards, l2);
        reveal_strlit("主要な成果");
        lemma_no_lt("主要な成果"@);
        lemma_panel("主要な成果"@, l1 + cards + l2);
    }
    // review flow
    let f = review_flow_panel(md);
    let st = review_stages(md);
    let s1 = stage(md, "主要な成果"@);
    let s2 = stage(md, "技術的な成長"@);
    let s3 = stage(md, "課題と学び"@);
    let s4 = stage(md, "次期の目標"@);
    assert(tag_safe(s1) && block(s1)) by {
        lemma_item("主要な成果"@);
        if s1.len() == 0 { lemma_no_lt(s1); }
    }
    assert(tag_safe(s2) && block(s2)) by {
        lemma_item("技術的な成長"@);
        if s2.len() == 0 { lemma_no_lt(s2); }
    }
    assert(tag_safe(s3) && block(s3)) by {
        lemma_item("課題と学び"@);
        if s3.len() == 0 { lemma_no_lt(s3); }
    }
    assert(tag_safe(s4) && block(s4)) by {
        lemma_item("次期の目標"@);
        if s4.len() == 0 { lemma_no_lt(s4); }
    }
    lemma_cat(s1, s2);
    lemma_cat(s1 + s2, s3);
    lemma_cat(s1 + s2 + s3, s4);
    assert(block(st));
    if st.len() == 0 {
        lemma_no_lt(f);
    } else {
        let l1 = "<ol class=\"review-flow\">"@;
        let l2 = "</ol>"@;
        reveal_strlit("<ol class=\"review-flow\">");
        reveal_strlit("</ol>");
        lemma_fixed(l1);
        lemma_fixed(l2);
        lemma_cat(l1, st);
        lemma_cat(l1 + st, l2);
        reveal_strlit("レビューの流れ");
        lemma_no_lt("レビューの流れ"@);
        lemma_panel("レビューの流れ"@, l1 + st + l2);
    }
    lemma_cat(m, a);
    lemma_cat(m + a, f);
}

/// The ALACT items hold no tag, and are markup.
pub proof fn lemma_phase_items(ps: Seq<Seq<char>>)
    ensures
        tag_safe(phase_items(ps)),
        block(phase_items(ps)),
    decreases ps.len(),
{
    if ps.len() == 0 {
        lemma_no_lt(phase_items(ps));
    } else {
        let t = crate::sections::without_order_prefix(ps.last());
        lemma_phase_items(ps.drop_last());
        lemma_item(t);
        let rest = phase_items(ps.drop_last());
        reveal_strlit("<li>");
        reveal_strlit("</li>");
        lemma_fixed("<li>"@);
        lemma_fixed("</li>"@);
        lemma_escaped(t);
        lemma_cat(rest, "<li>"@);
        lemma_cat(rest + "<li>"@, escape(t));
        lemma_cat(rest + "<li>"@ + escape(t), "</li>"@);
        if rest.len() == 0 {
            assert((rest + "<li>"@ + escape(t) + "</li>"@)[0] == '<');
        }
    }
}

/// A chart panel holds no tag when its chart holds none.
pub proof fn lemma_chart_panel(title: Seq<char>, chart: Option<Seq<char>>)
    requires
        forall|k: int| 0 <= k < title.len() ==> title[k] != '<',
        chart matches Some(c) ==> tag_safe(c),
    ensures
        tag_safe(chart_panel(title, chart)),
        block(chart_panel(title, chart)),
{
    match chart {
        Some(c) => {
            lemma_no_lt(title);
            lemma_panel(title, c);
        },
        None => {
            lemma_no_lt(chart_panel(title, chart));
        },
    }
}

/// The panels of an insight report hold no tag when its charts hold none.
pub proof fn lemma_insight_html(md: Seq<char>, project: Option<Seq<char>>, tools: Option<Seq<char>>)
    requires
        project matches Some(c) ==> tag_safe(c),
        tools matches Some(c) ==> tag_safe(c),
    ensures
        tag_safe(insight_html(md, project, tools)),
        block(insight_html(md, project, tools)),
{
    let items = crate::sections::labeled_items(
        crate::sections::window_after(
            crate::text::lines(md),
            crate::sections::h2_of("期間の概要"@),
            crate::sections::LineTest::NoHash,
        ),
    );
    lemma_labeled_cards(items, "期間の主要指標"@);
    let cards = match labeled_cards(items, "期間の主要指標"@) {
        Some(c) => panel("期間の概要"@, c),
        None => Seq::empty(),
    };
    match labeled_cards(items, "期間の主要指標"@) {
        Some(c) => {
            reveal_strlit("期間の概要");
            lemma_no_lt("期間の概要"@);
            lemma_panel("期間の概要"@, c);
        },
        None => {
            lemma_no_lt(cards);
        },
    }
    reveal_strlit("プロジェクト構成");
    reveal_strlit("ツール使用傾向");
    lemma_chart_panel("プロジェクト構成"@, project);
    lemma_chart_panel("ツール使用傾向"@, tools);
    let cp = chart_panel("プロジェクト構成"@, project);
    let ct = chart_panel("ツール使用傾向"@, tools);
    let phases = insight_phases(md);
    let flow = if phases.len() == 0 {
        Seq::empty()
    } else {
        panel(
            "ALACTの流れ"@,
            "<ol class=\"alact-flow\">"@ + phase_items(
                phases.take(if phases.len() < 4 {
                    phases.len() as int
                } else {
                    4
                }),
            ) + "</ol>"@,
        )
    };
    if phases.len() == 0 {
        lemma_no_lt(flow);
    } else {
        let shown = phases.take(if phases.len() < 4 {
            phases.len() as int
        } else {
            4
        });
        let l1 = "<ol class=\"alact-flow\">"@;
        let l2 = "</ol>"@;
        reveal_strlit("<ol class=\"alact-flow\">");
        reveal_strlit("</ol>");
        lemma_fixed(l1);
        lemma_fixed(l2);
        lemma_phase_items(shown);
        lemma_cat(l1, phase_items(shown));
        lemma_cat(l1 + phase_items(shown), l2);
        reveal_strlit("ALACTの流れ");
        lemma_no_lt("ALACTの流れ"@);
        lemma_panel("ALACTの流れ"@, l1 + phase_items(shown) + l2);
    }
    lemma_cat(cards, cp);
    lemma_cat(cards + cp, ct);
    lemma_cat(cards + cp + ct, flow);
}

/// Every chart that was drawn holds no tag.
pub open spec fn charts_safe(charts: Seq<Option<Seq<char>>>) -> bool {
    forall|k: int| 0 <= k < charts.len() ==> (#[trigger] charts[k] matches Some(c) ==> tag_safe(c))
}

/// The panels of a trend report hold no tag when its charts hold none.
pub proof fn lemma_trend_html(charts: Seq<Option<Seq<char>>>)
    requires
        charts_safe(charts),
    ensures
        tag_safe(trend_html(charts)),
        block(trend_html(charts)),
{
    assert forall|k: int| 0 <= k < 3 implies tag_safe(#[trigger] trend_panel(charts, k)) && block(
        trend_panel(charts, k),
    ) by {
        if k < charts.len() && charts[k] is Some {
            lemma_escaped(trend_title(k));
            lemma_panel(escape(trend_title(k)), charts[k]->0);
        } else {
            lemma_no_lt(trend_panel(charts, k));
        }
    }
    let p0 = trend_panel(charts, 0);
    let p1 = trend_panel(charts, 1);
    let p2 = trend_panel(charts, 2);
    lemma_cat(p0, p1);
    lemma_cat(p0 + p1, p2);
}

/// The panels of any mode hold no tag when the charts hold none.
pub proof fn lemma_visualizations(mode: HtmlReportMode, md: Seq<char>, charts: Seq<Option<Seq<char>>>)
    requires
        charts_safe(charts),
    ensures
        tag_safe(visualizations(mode, md, charts)),
        block(visualizations(mode, md, charts)),
{
    match mode {
        HtmlReportMode::Insight => {
            let p = if charts.len() > 0 { charts[0] } else { None };
            let t = if charts.len() > 1 { charts[1] } else { None };
            lemma_insight_html(md, p, t);
        },
        HtmlReportMode::Review => {
            lemma_review_html(md);
        },
        HtmlReportMode::Trend => {
            lemma_trend_html(charts);
        },
    }
}

/// The page holds no tag when its panels and its Markdown body hold none.
pub proof fn lemma_document(title: Seq<char>, vis: Seq<char>, body: Seq<char>)
    requires
        tag_safe(vis),
        tag_safe(body),
    ensures
        tag_safe(document_html(title, vis, body)),
{
    let l1 = "<!doctype html>\n<html lang=\"ja\">\n<head>\n<meta charset=\"utf-8\">\n<meta name=\"viewport\" content=\"width=device-width, initial-scale=1\">\n<meta http-equiv=\"Content-Security-Policy\" content=\"default-src 'none'; style-src 'unsafe-inline'; img-src data:; base-uri 'none'; form-action 'none'\">\n<title>"@;
    let l2 = "</title>\n<style>"@;
    let l3 = "</style>\n</head>\n<body>\n<main class=\"report-shell\">\n<header class=\"report-header\"><p class=\"eyebrow\">nippo visual report</p><h1>"@;
    let l4 = "</h1></header>\n"@;
    let l5 = "\n<article class=\"report-content\">"@;
    let l6 = "</article>\n</main>\n</body>\n</html>\n"@;
    reveal_strlit("<!doctype html>\n<html lang=\"ja\">\n<head>\n<meta charset=\"utf-8\">\n<meta name=\"viewport\" content=\"width=device-width, initial-scale=1\">\n<meta http-equiv=\"Content-Security-Policy\" content=\"default-src 'none'; style-src 'unsafe-inline'; img-src data:; base-uri 'none'; form-action 'none'\">\n<title>");
    reveal_strlit("</title>\n<style>");
    reveal_strlit("</style>\n</head>\n<body>\n<main class=\"report-shell\">\n<header class=\"report-header\"><p class=\"eyebrow\">nippo visual report</p><h1>");
    reveal_strlit("</h1></header>\n");
    reveal_strlit("\n<article class=\"report-content\">");
    reveal_strlit("</article>\n</main>\n</body>\n</html>\n");
    lemma_fixed(l1);
    lemma_fixed(l2);
    lemma_fixed(l3);
    lemma_fixed(l4);
    lemma_fixed(l5);
    lemma_fixed(l6);
    crate::render::lemma_style_plain();
    let style = STYLE@;
    lemma_no_lt(style);
    let e = escape(title);
    lemma_escaped(title);
    lemma_cat(l1, e);
    lemma_cat(l1 + e, l2);
    lemma_cat(l1 + e + l2, style);
    lemma_cat(l1 + e + l2 + style, l3);
    lemma_cat(l1 + e + l2 + style + l3, e);
    lemma_cat(l1 + e + l2 + style + l3 + e, l4);
    lemma_cat(l1 + e + l2 + style + l3 + e + l4, vis);
    lemma_cat(l1 + e + l2 + style + l3 + e + l4 + vis, l5);
    lemma_cat(l1 + e + l2 + style + l3 + e + l4 + vis + l5, body);
    lemma_cat(l1 + e + l2 + style + l3 + e + l4 + vis + l5 + body, l6);
}

} // verus!
