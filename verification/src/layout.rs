//! Cell geometry of the sidebar and of session-level pinned panes.
use vstd::prelude::*;
use crate::sidebar::{
    AgentPanelSort, AgentRow, AgentStatus, PanelConfig, lemma_toggle_labels_tell_settings_apart, agent_hit_targets, rows_view, spec_hit_targets, agent_panel_remotes_label,
    agent_panel_scope_label, agent_panel_sort_label, spec_remotes_label, spec_scope_label,
    spec_sort_label,
};

verus! {

// ---------------------------------------------------------------------
// Rectangles
// ---------------------------------------------------------------------

/// A rectangle of terminal cells, as the terminal UI library lays them out.
#[derive(PartialEq, Eq, Structural, Clone, Copy, Debug)]
pub struct Rect {
    pub x: u16,
    pub y: u16,
    pub width: u16,
    pub height: u16,
}

pub open spec fn sat_add_u16(a: int, b: int) -> u16 {
    if a + b > u16::MAX { u16::MAX } else { (a + b) as u16 }
}

pub open spec fn sat_sub_u16(a: int, b: int) -> u16 {
    if a - b < 0 { 0 } else { (a - b) as u16 }
}

pub open spec fn min_int(a: int, b: int) -> int {
    if a <= b { a } else { b }
}

/// `Rect::new`: the size is clipped so that the rectangle stays within
/// the `u16` coordinate space.
pub open spec fn spec_rect(x: u16, y: u16, width: u16, height: u16) -> Rect {
    Rect {
        x,
        y,
        width: min_int(width as int, u16::MAX - x) as u16,
        height: min_int(height as int, u16::MAX - y) as u16,
    }
}

impl Rect {
    pub open spec fn spec_right(self) -> u16 {
        sat_add_u16(self.x as int, self.width as int)
    }

    pub open spec fn spec_bottom(self) -> u16 {
        sat_add_u16(self.y as int, self.height as int)
    }

    /// A rectangle clipped to the `u16` coordinate space.
    pub fn new(x: u16, y: u16, width: u16, height: u16) -> (r: Rect)
        ensures
            r == spec_rect(x, y, width, height),
    {
        let max_width = u16::MAX - x;
        let max_height = u16::MAX - y;
        let width = if width > max_width { max_width } else { width };
        let height = if height > max_height { max_height } else { height };
        Rect { x, y, width, height }
    }

    /// The first column right of the rectangle (saturating).
    pub fn right(&self) -> (r: u16)
        ensures
            r == self.spec_right(),
    {
        if self.x as u32 + self.width as u32 > u16::MAX as u32 {
            u16::MAX
        } else {
            self.x + self.width
        }
    }

    /// The first row below the rectangle (saturating).
    pub fn bottom(&self) -> (r: u16)
        ensures
            r == self.spec_bottom(),
    {
        if self.y as u32 + self.height as u32 > u16::MAX as u32 {
            u16::MAX
        } else {
            self.y + self.height
        }
    }

    /// The rectangle covers no cell.
    pub fn is_empty(&self) -> (e: bool)
        ensures
            e == (self.width == 0 || self.height == 0),
    {
        self.width == 0 || self.height == 0
    }

    /// The empty rectangle at the origin.
    pub fn zero() -> (r: Rect)
        ensures
            r == (Rect { x: 0, y: 0, width: 0, height: 0 }),
    {
        Rect { x: 0, y: 0, width: 0, height: 0 }
    }
}

fn sat_add(a: u16, b: u16) -> (r: u16)
    ensures
        r == sat_add_u16(a as int, b as int),
{
    if a as u32 + b as u32 > u16::MAX as u32 {
        u16::MAX
    } else {
        a + b
    }
}

fn sat_sub(a: u16, b: u16) -> (r: u16)
    ensures
        r == sat_sub_u16(a as int, b as int),
{
    if a < b {
        0
    } else {
        a - b
    }
}

// ---------------------------------------------------------------------
// Display width
// ---------------------------------------------------------------------

/// The display width in columns that `unicode-width` gives a string.
pub uninterp spec fn str_display_width(s: Seq<char>) -> usize;

/// `UnicodeWidthStr::width` of `unicode-width`: the displayed width of the
/// string in columns (ambiguous characters count as one).
#[verifier::external_body]
pub(crate) fn display_width(text: &str) -> (w: usize)
    ensures
        w == str_display_width(text@),
{
    unicode_width::UnicodeWidthStr::width(text)
}

// ---------------------------------------------------------------------
// Header toggles
// ---------------------------------------------------------------------

/// Sum of the widths, wrapping at `2^16` like a `u16` sum does in a
/// release build.
pub open spec fn wrapping_sum_u16(widths: Seq<u16>) -> u16
    decreases widths.len(),
{
    if widths.len() == 0 {
        0
    } else {
        ((wrapping_sum_u16(widths.drop_last()) as int + widths.last() as int) % 65536) as u16
    }
}

/// The toggle rectangles from column `x` on: each as wide as its label
/// (clipped at the area's right edge), with `sep` columns between them.
pub open spec fn toggle_rects_from(area: Rect, y: u16, widths: Seq<u16>, sep: u16, x: u16) -> Seq<
    Rect,
>
    decreases widths.len(),
{
    if widths.len() == 0 {
        Seq::empty()
    } else {
        let w = widths[0];
        let rect = spec_rect(
            min_int(x as int, area.spec_right() as int) as u16,
            y,
            min_int(w as int, sat_sub_u16(area.spec_right() as int, x as int) as int) as u16,
            1,
        );
        seq![rect] + toggle_rects_from(
            area,
            y,
            widths.drop_first(),
            sep,
            sat_add_u16(sat_add_u16(x as int, w as int) as int, sep as int),
        )
    }
}

proof fn lemma_toggle_rects_len(area: Rect, y: u16, widths: Seq<u16>, sep: u16, x: u16)
    ensures
        toggle_rects_from(area, y, widths, sep, x).len() == widths.len(),
    decreases widths.len(),
{
    if widths.len() > 0 {
        let w = widths[0];
        lemma_toggle_rects_len(
            area,
            y,
            widths.drop_first(),
            sep,
            sat_add_u16(sat_add_u16(x as int, w as int) as int, sep as int),
        );
    }
}

/// Right-aligned toggle rectangles on row `y` of `area` for labels of the
/// given widths separated by `sep` columns.
pub open spec fn spec_toggle_rects(area: Rect, y: u16, widths: Seq<u16>, sep: u16) -> Seq<Rect> {
    let sum = wrapping_sum_u16(widths);
    let total = if widths.len() > 1 {
        sat_add_u16(sum as int, sat_mul_u16(sep as int, ((widths.len() - 1) as int % 65536)) as int)
    } else {
        sum
    };
    let start = sat_sub_u16(area.spec_right() as int, min_int(total as int, area.width as int));
    toggle_rects_from(area, y, widths, sep, start)
}

pub open spec fn sat_mul_u16(a: int, b: int) -> u16 {
    if a * b > u16::MAX { u16::MAX } else { (a * b) as u16 }
}

/// Right-aligned toggle rectangles for labels of the given display widths.
pub fn toggle_rects_for_widths(area: Rect, y: u16, widths: &Vec<u16>, sep: u16) -> (rects: Vec<
    Rect,
>)
    ensures
        rects@ == spec_toggle_rects(area, y, widths@, sep),
{
    let mut sum: u16 = 0;
    let mut i: usize = 0;
    while i < widths.len()
        invariant
            i <= widths.len(),
            sum == wrapping_sum_u16(widths@.take(i as int)),
        decreases widths.len() - i,
    {
        assert(widths@.take(i + 1).drop_last() =~= widths@.take(i as int));
        sum = ((sum as u32 + widths[i] as u32) % 65536) as u16;
        i = i + 1;
    }
    assert(widths@.take(widths.len() as int) =~= widths@);
    let total: u16 = if widths.len() > 1 {
        let count: u32 = ((widths.len() - 1) % 65536) as u32;
        assert((sep as int) * (count as int) <= 65535 * 65535) by (nonlinear_arith)
            requires
                sep <= 65535,
                count <= 65535,
        ;
        let product: u32 = sep as u32 * count;
        let seps: u16 = if product > u16::MAX as u32 { u16::MAX } else { product as u16 };
        assert(seps == sat_mul_u16(sep as int, ((widths@.len() - 1) as int % 65536))) by (nonlinear_arith)
            requires
                product == sep as int * count as int,
                count as int == (widths@.len() - 1) as int % 65536,
                seps == (if product > u16::MAX as u32 { u16::MAX } else { product as u16 }),
        ;
        sat_add(sum, seps)
    } else {
        sum
    };
    let right = area.right();
    let shown = if total < area.width { total } else { area.width };
    let mut x = sat_sub(right, shown);
    let mut rects: Vec<Rect> = Vec::new();
    let mut k: usize = 0;
    assert(widths@.skip(0) =~= widths@);
    while k < widths.len()
        invariant
            k <= widths.len(),
            right == area.spec_right(),
            rects@ + toggle_rects_from(area, y, widths@.skip(k as int), sep, x) == spec_toggle_rects(
                area,
                y,
                widths@,
                sep,
            ),
        decreases widths.len() - k,
    {
        let w = widths[k];
        let rx = if x < right { x } else { right };
        let room = sat_sub(right, x);
        let rw = if w < room { w } else { room };
        let rect = Rect::new(rx, y, rw, 1);
        let ghost rest = widths@.skip(k as int);
        assert(rest[0] == w);
        assert(rest.drop_first() =~= widths@.skip(k + 1));
        let ghost before = rects@;
        let ghost xo = x;
        rects.push(rect);
        assert(rects@ =~= before + seq![rect]);
        x = sat_add(sat_add(x, w), sep);
        assert(toggle_rects_from(area, y, rest, sep, xo) == seq![rect] + toggle_rects_from(
            area,
            y,
            rest.drop_first(),
            sep,
            x,
        ));
        assert(before + toggle_rects_from(area, y, rest, sep, xo) =~= rects@
            + toggle_rects_from(area, y, widths@.skip(k + 1), sep, x));
        k = k + 1;
    }
    assert(widths@.skip(widths.len() as int) =~= Seq::<u16>::empty());
    assert(rects@ + Seq::<Rect>::empty() =~= rects@);
    rects
}

/// A label's width as a header toggle: its display width, at most the
/// area's width.
pub open spec fn toggle_width(label: Seq<char>, area: Rect) -> u16 {
    min_int(str_display_width(label) as int, area.width as int) as u16
}

/// Right-aligned toggle rectangles for `labels` on row `y` of `area`.
pub fn right_aligned_toggle_rects(area: Rect, y: u16, labels: &Vec<&str>) -> (rects: Vec<Rect>)
    ensures
        rects@ == spec_toggle_rects(
            area,
            y,
            labels@.map_values(|l: &str| toggle_width(l@, area)),
            (str_display_width(" · "@) as int % 65536) as u16,
        ),
{
    let sep = (display_width(" · ") % 65536) as u16;
    let mut widths: Vec<u16> = Vec::new();
    let mut i: usize = 0;
    while i < labels.len()
        invariant
            i <= labels.len(),
            widths@ =~= labels@.take(i as int).map_values(|l: &str| toggle_width(l@, area)),
        decreases labels.len() - i,
    {
        let w = display_width(labels[i]);
        let cw: u16 = if w < area.width as usize { w as u16 } else { area.width };
        widths.push(cw);
        i = i + 1;
    }
    assert(labels@.take(labels.len() as int) =~= labels@);
    toggle_rects_for_widths(area, y, &widths, sep)
}

/// What the agent panel header shows.
pub enum HeaderPlan {
    /// The area has no rows: nothing is drawn.
    Hidden,
    /// Only the rule on the first row fits.
    RuleOnly,
    /// An agent view is active: its label, right-aligned on the second row.
    ViewLabel { rect: Rect },
    /// The sort, scope and remotes toggles on the second row, with their
    /// click targets (empty without mouse capture) and the separator gaps
    /// (column and width) between them.
    Toggles { labels: Vec<&'static str>, rects: Vec<Rect>, hits: Vec<Rect>, separators: Vec<(u16, u16)> },
}

pub open spec fn header_toggle_labels(cfg: PanelConfig) -> Seq<Seq<char>> {
    seq![
        spec_sort_label(cfg.agent_panel_sort),
        spec_scope_label(cfg.agent_panel_scope),
        spec_remotes_label(cfg.agent_panel_remotes),
    ]
}

/// The gaps between consecutive toggles that get a separator.
pub open spec fn separator_gaps(rects: Seq<Rect>) -> Seq<(u16, u16)>
    decreases rects.len(),
{
    if rects.len() <= 1 {
        Seq::empty()
    } else {
        let before = separator_gaps(rects.drop_last());
        let previous = rects[rects.len() - 2];
        let gap = sat_sub_u16(rects.last().x as int, previous.spec_right() as int);
        if gap > 0 {
            before.push((previous.spec_right(), gap))
        } else {
            before
        }
    }
}

/// The right-aligned rectangle of an agent view label of display width
/// `label_width` on row `y`.
pub open spec fn spec_view_label_rect(area: Rect, y: u16, label_width: usize) -> Rect {
    let w = min_int(label_width as int, area.width as int) as u16;
    spec_rect(sat_sub_u16(area.spec_right() as int, w as int), y, w, 1)
}

/// The header plan for an area: hidden without rows, the rule alone with
/// one row, else the view label or the toggles on the second row.
pub open spec fn header_plan_matches(
    plan: HeaderPlan,
    area: Rect,
    view_label: Option<Seq<char>>,
    cfg: PanelConfig,
) -> bool {
    if area.height == 0 {
        plan is Hidden
    } else if area.height < 2 {
        plan is RuleOnly
    } else {
        let y = (area.y + 1) as u16;
        match view_label {
            Some(l) => plan matches HeaderPlan::ViewLabel { rect } && rect == spec_view_label_rect(
                area,
                y,
                str_display_width(l),
            ),
            None => plan matches HeaderPlan::Toggles { labels, rects, hits, separators } && {
                let widths = header_toggle_labels(cfg).map_values(|l: Seq<char>| toggle_width(l, area));
                let sep = (str_display_width(" · "@) as int % 65536) as u16;
                &&& labels@.map_values(|l: &str| l@) == header_toggle_labels(cfg)
                &&& rects@ == spec_toggle_rects(area, y, widths, sep)
                &&& hits@ == if cfg.mouse_capture {
                    rects@
                } else {
                    Seq::new(3, |i: int| Rect { x: 0, y: 0, width: 0, height: 0 })
                }
                &&& separators@ == separator_gaps(rects@)
            },
        }
    }
}

/// With room for its second row and no agent view, the header shows the
/// sort toggle first, labelled "prio" exactly when the panel sorts by
/// priority and "grpd" exactly when it keeps the spaces' order, then the
/// scope and remotes toggles.
pub proof fn lemma_header_sort_toggle_names_the_sort(plan: HeaderPlan, area: Rect, cfg: PanelConfig)
    requires
        header_plan_matches(plan, area, None, cfg),
        area.height >= 2,
    ensures
        plan matches HeaderPlan::Toggles { labels, .. } && labels@.len() == 3 && (labels@[0]@
            == "prio"@ <==> cfg.agent_panel_sort == AgentPanelSort::Priority) && (labels@[0]@
            == "grpd"@ <==> cfg.agent_panel_sort == AgentPanelSort::Spaces) && labels@[1]@
            == spec_scope_label(cfg.agent_panel_scope) && labels@[2]@ == spec_remotes_label(
            cfg.agent_panel_remotes,
        ),
{
    lemma_toggle_labels_tell_settings_apart(
        cfg.agent_panel_sort,
        AgentPanelSort::Priority,
        cfg.agent_panel_scope,
        cfg.agent_panel_scope,
        cfg.agent_panel_remotes,
        cfg.agent_panel_remotes,
    );
    lemma_toggle_labels_tell_settings_apart(
        cfg.agent_panel_sort,
        AgentPanelSort::Spaces,
        cfg.agent_panel_scope,
        cfg.agent_panel_scope,
        cfg.agent_panel_remotes,
        cfg.agent_panel_remotes,
    );
    if let HeaderPlan::Toggles { labels, .. } = plan {
        let lv = labels@.map_values(|l: &str| l@);
        assert(lv == header_toggle_labels(cfg));
        assert(lv.len() == 3);
        assert(lv[0] == labels@[0]@);
        assert(lv[1] == labels@[1]@);
        assert(lv[2] == labels@[2]@);
    }
}

/// Lay out the agent panel header (a rule, then the view label or the
/// toggles).
pub fn agent_panel_header_plan(area: Rect, view_label: Option<&str>, cfg: &PanelConfig) -> (plan:
    HeaderPlan)
    requires
        area.height >= 2 ==> area.y < u16::MAX,
    ensures
        header_plan_matches(
            plan,
            area,
            match view_label {
                Some(l) => Some(l@),
                None => None,
            },
            *cfg,
        ),
{
    if area.height == 0 {
        return HeaderPlan::Hidden;
    }
    if area.height < 2 {
        return HeaderPlan::RuleOnly;
    }
    let header_y = area.y + 1;
    if let Some(label) = view_label {
        let w = display_width(label);
        let lw: u16 = if w < area.width as usize { w as u16 } else { area.width };
        let rect = Rect::new(sat_sub(area.right(), lw), header_y, lw, 1);
        return HeaderPlan::ViewLabel { rect };
    }
    let sort_label = agent_panel_sort_label(cfg.agent_panel_sort);
    let scope_label = agent_panel_scope_label(cfg.agent_panel_scope);
    let remotes_label = agent_panel_remotes_label(cfg.agent_panel_remotes);
    let mut labels: Vec<&'static str> = Vec::new();
    labels.push(sort_label);
    labels.push(scope_label);
    labels.push(remotes_label);
    let mut label_refs: Vec<&str> = Vec::new();
    label_refs.push(sort_label);
    label_refs.push(scope_label);
    label_refs.push(remotes_label);
    let rects = right_aligned_toggle_rects(area, header_y, &label_refs);
    assert(label_refs@.map_values(|l: &str| toggle_width(l@, area)) =~= header_toggle_labels(
        *cfg,
    ).map_values(|l: Seq<char>| toggle_width(l, area)));
    proof {
        let widths = header_toggle_labels(*cfg).map_values(|l: Seq<char>| toggle_width(l, area));
        let sep = (str_display_width(" · "@) as int % 65536) as u16;
        let sum = wrapping_sum_u16(widths);
        let total = sat_add_u16(sum as int, sat_mul_u16(sep as int, ((widths.len() - 1) as int % 65536)) as int);
        let start = sat_sub_u16(area.spec_right() as int, min_int(total as int, area.width as int));
        lemma_toggle_rects_len(area, header_y, widths, sep, start);
    }
    assert(rects@.len() == 3);
    let mut hits: Vec<Rect> = Vec::new();
    let mut separators: Vec<(u16, u16)> = Vec::new();
    let mut i: usize = 0;
    while i < rects.len()
        invariant
            i <= rects.len(),
            rects@.len() == 3,
            hits@ =~= if cfg.mouse_capture {
                rects@.take(i as int)
            } else {
                Seq::new(i as nat, |k: int| Rect { x: 0, y: 0, width: 0, height: 0 })
            },
            separators@ == separator_gaps(rects@.take(i as int)),
        decreases rects.len() - i,
    {
        if cfg.mouse_capture {
            hits.push(rects[i]);
        } else {
            hits.push(Rect::zero());
        }
        let ghost t = rects@.take(i + 1);
        assert(t.drop_last() =~= rects@.take(i as int));
        if i > 0 {
            let previous = rects[i - 1];
            let gap = sat_sub(rects[i].x, previous.right());
            assert(t[t.len() - 2] == previous);
            if gap > 0 {
                separators.push((previous.right(), gap));
            }
        }
        i = i + 1;
    }
    assert(rects@.take(3) =~= rects@);
    assert(labels@.map_values(|l: &str| l@) =~= header_toggle_labels(*cfg));
    HeaderPlan::Toggles { labels, rects, hits, separators }
}

// ---------------------------------------------------------------------
// Agent list
// ---------------------------------------------------------------------

/// The list body: the panel area below its three header rows.
pub open spec fn spec_list_body(area: Rect) -> Rect {
    spec_rect(area.x, sat_add_u16(area.y as int, 3), area.width, sat_sub_u16(area.height as int, 3))
}

pub fn agent_list_body(area: Rect) -> (body: Rect)
    ensures
        body == spec_list_body(area),
{
    Rect::new(area.x, sat_add(area.y, 3), area.width, sat_sub(area.height, 3))
}

/// A row's height: its line count, at least one and at most `u16::MAX`.
pub open spec fn row_height(lines: usize) -> u16 {
    if lines == 0 {
        1
    } else if lines > u16::MAX {
        u16::MAX
    } else {
        lines as u16
    }
}

/// Rows placed from row `index` on at line `y`: each gets its height
/// (at most the body's), the gap follows every row but the last, and
/// placement stops at the first row that would cross the body's bottom.
pub open spec fn place_rows_from(
    body: Rect,
    lines: Seq<usize>,
    gap: u16,
    content_width: u16,
    index: int,
    y: u16,
) -> Seq<(usize, Rect)>
    decreases lines.len() - index,
{
    if index < 0 || index >= lines.len() {
        Seq::empty()
    } else {
        let height = min_int(row_height(lines[index]) as int, body.height as int) as u16;
        if sat_add_u16(y as int, height as int) > body.spec_bottom() {
            Seq::empty()
        } else {
            let next = sat_add_u16(
                sat_add_u16(y as int, height as int) as int,
                if index + 1 < lines.len() { gap as int } else { 0 },
            );
            seq![(index as usize, spec_rect(body.x, y, content_width, height))] + place_rows_from(
                body,
                lines,
                gap,
                content_width,
                index + 1,
                next,
            )
        }
    }
}

/// The width left for row content: one column less when a scrollbar is
/// shown.
pub open spec fn spec_content_width(body: Rect, show_scrollbar: bool) -> u16 {
    sat_sub_u16(body.width as int, if show_scrollbar { 1 } else { 0 })
}

/// Place the rows with the given line counts in the list body, starting
/// with row `first`: each entry is a row index and its rectangle.
pub fn place_rows(body: Rect, lines: &Vec<usize>, gap: u16, first: usize, show_scrollbar: bool) -> (placed:
    Vec<(usize, Rect)>)
    ensures
        placed@ == place_rows_from(
            body,
            lines@,
            gap,
            spec_content_width(body, show_scrollbar),
            first as int,
            body.y,
        ),
{
    let content_width = sat_sub(body.width, if show_scrollbar { 1 } else { 0 });
    let bottom = body.bottom();
    let mut placed: Vec<(usize, Rect)> = Vec::new();
    let mut y = body.y;
    let mut index = first;
    let ghost target = place_rows_from(body, lines@, gap, content_width, first as int, body.y);
    assert(placed@ + place_rows_from(body, lines@, gap, content_width, index as int, y) =~= target);
    while index < lines.len()
        invariant
            first <= index,
            bottom == body.spec_bottom(),
            target == place_rows_from(body, lines@, gap, spec_content_width(body, show_scrollbar), first as int, body.y),
            content_width == spec_content_width(body, show_scrollbar),
            placed@ + place_rows_from(body, lines@, gap, content_width, index as int, y) == target,
        decreases lines.len() - index,
    {
        let n = lines[index];
        let h: u16 = if n == 0 { 1 } else if n > u16::MAX as usize { u16::MAX } else { n as u16 };
        let height = if h < body.height { h } else { body.height };
        let end = sat_add(y, height);
        if end > bottom {
            assert(place_rows_from(body, lines@, gap, content_width, index as int, y) =~= Seq::<
                (usize, Rect),
            >::empty());
            assert(placed@ + Seq::<(usize, Rect)>::empty() =~= placed@);
            return placed;
        }
        let rect = Rect::new(body.x, y, content_width, height);
        let ghost before = placed@;
        let ghost yo = y;
        placed.push((index, rect));
        let step = if index + 1 < lines.len() { gap } else { 0 };
        y = sat_add(end, step);
        assert(place_rows_from(body, lines@, gap, content_width, index as int, yo) == seq![(index, rect)]
            + place_rows_from(body, lines@, gap, content_width, index + 1, y));
        assert(before + place_rows_from(body, lines@, gap, content_width, index as int, yo) =~= placed@ + place_rows_from(
            body,
            lines@,
            gap,
            content_width,
            index + 1,
            y,
        ));
        index = index + 1;
    }
    assert(placed@ + Seq::<(usize, Rect)>::empty() =~= placed@);
    placed
}

/// How the agent list is laid out for one frame.
pub struct ListPlan {
    /// The list body (below the header).
    pub body: Rect,
    /// The scroll position to keep: rows skipped at the top.
    pub scroll_top: usize,
    /// The empty-list message is drawn (the body has room and there is a
    /// message but no row).
    pub show_message: bool,
    /// Placed rows: row index and rectangle.
    pub placed: Vec<(usize, Rect)>,
    /// The scrollbar track, when the list overflows and is wider than one
    /// column.
    pub scrollbar: Option<Rect>,
}

/// The list plan for rows of the given line counts. `max_offset` and
/// `offset` are the scroll metrics' largest offset from the bottom and the
/// current one.
pub open spec fn list_plan_matches(
    plan: ListPlan,
    area: Rect,
    lines: Seq<usize>,
    gap: u16,
    has_message: bool,
    max_offset: usize,
    offset: usize,
) -> bool {
    let body = spec_list_body(area);
    &&& plan.body == body
    &&& if body.width == 0 || body.height == 0 || lines.len() == 0 {
        &&& plan.scroll_top == 0
        &&& plan.show_message == (has_message && !(body.width == 0 || body.height == 0))
        &&& plan.placed@.len() == 0
        &&& plan.scrollbar is None
    } else {
        let scroll_top = if max_offset >= offset { (max_offset - offset) as usize } else { 0usize };
        let show_scrollbar = max_offset > 0 && body.width > 1;
        &&& plan.scroll_top == scroll_top
        &&& !plan.show_message
        &&& plan.placed@ == place_rows_from(
            body,
            lines,
            gap,
            spec_content_width(body, show_scrollbar),
            scroll_top as int,
            body.y,
        )
        &&& plan.scrollbar == if show_scrollbar {
            Some(spec_rect(sat_sub_u16(body.spec_right() as int, 1), body.y, 1, body.height))
        } else {
            None
        }
    }
}

/// Lay out the agent list in the panel `area`.
pub fn agent_list_plan(
    area: Rect,
    lines: &Vec<usize>,
    gap: u16,
    has_message: bool,
    max_offset: usize,
    offset: usize,
) -> (plan: ListPlan)
    ensures
        list_plan_matches(plan, area, lines@, gap, has_message, max_offset, offset),
{
    let body = agent_list_body(area);
    if body.is_empty() || lines.len() == 0 {
        return ListPlan {
            body,
            scroll_top: 0,
            show_message: has_message && !body.is_empty(),
            placed: Vec::new(),
            scrollbar: None,
        };
    }
    let scroll_top: usize = if max_offset >= offset { max_offset - offset } else { 0 };
    let show_scrollbar = max_offset > 0 && body.width > 1;
    let placed = place_rows(body, lines, gap, scroll_top, show_scrollbar);
    let scrollbar = if show_scrollbar {
        Some(Rect::new(sat_sub(body.right(), 1), body.y, 1, body.height))
    } else {
        None
    };
    ListPlan { body, scroll_top, show_message: false, placed, scrollbar }
}

/// The lines of one agent row drawn in `rect`: for each shown line, its
/// indent (one column on the first line, three after), the width left for
/// its tokens, and its one-row rectangle. A row without lines shows one
/// line (its state icon); no more lines than the rectangle's height.
pub open spec fn spec_row_lines(rect: Rect, line_count: nat) -> Seq<(usize, u16, Rect)> {
    let count = if line_count == 0 { 1 } else { line_count };
    let shown = min_int(count as int, rect.height as int);
    Seq::new(
        shown as nat,
        |i: int| {
            let indent: usize = if i == 0 { 1 } else { 3 };
            (indent, sat_sub_u16(rect.width as int, indent as int), spec_rect(rect.x, (rect.y + i) as u16, rect.width, 1))
        },
    )
}

pub fn agent_row_lines(rect: Rect, line_count: usize) -> (out: Vec<(usize, u16, Rect)>)
    requires
        rect.y + min_int(if line_count == 0 { 1 } else { line_count as int }, rect.height as int)
            <= u16::MAX + 1,
    ensures
        out@ == spec_row_lines(rect, line_count as nat),
{
    let count: usize = if line_count == 0 { 1 } else { line_count };
    let shown: usize = if count < rect.height as usize { count } else { rect.height as usize };
    let mut out: Vec<(usize, u16, Rect)> = Vec::new();
    let mut i: usize = 0;
    while i < shown
        invariant
            i <= shown,
            shown as int == min_int(if line_count == 0 { 1 } else { line_count as int }, rect.height as int),
            rect.y + shown <= u16::MAX + 1,
            out@ =~= spec_row_lines(rect, line_count as nat).take(i as int),
        decreases shown - i,
    {
        let indent: usize = if i == 0 { 1 } else { 3 };
        let width = sat_sub(rect.width, indent as u16);
        let line = Rect::new(rect.x, rect.y + i as u16, rect.width, 1);
        out.push((indent, width, line));
        i = i + 1;
    }
    out
}

// ---------------------------------------------------------------------
// Row styles
// ---------------------------------------------------------------------

/// A color of the theme palette, or the color of an agent status.
#[derive(PartialEq, Eq, Clone, Copy, Debug)]
pub enum PaletteColor {
    Text,
    Subtext0,
    Overlay0,
    ActiveRowBg,
    Status(AgentStatus),
}

/// A cell style: optional colors and the modifiers bold, dim and italic.
#[derive(PartialEq, Eq, Clone, Copy, Debug)]
pub struct CellStyle {
    pub fg: Option<PaletteColor>,
    pub bg: Option<PaletteColor>,
    pub bold: bool,
    pub dim: bool,
    pub italic: bool,
}

/// The styles an agent row is drawn with: the whole line, its state icon,
/// its status text, its name, and its secondary tokens.
#[derive(PartialEq, Eq, Clone, Copy, Debug)]
pub struct RowStyles {
    pub line: CellStyle,
    pub icon: CellStyle,
    pub status: CellStyle,
    pub name: CellStyle,
    pub secondary: CellStyle,
}

/// The styles of an agent row: a focused row gets the active background and
/// a bright name with an undimmed status; a remote row's name is dim and
/// italic; the name is always bold, secondary tokens always dim.
pub fn agent_row_styles(row: &AgentRow) -> (s: RowStyles)
    ensures
        s.line == (CellStyle {
            fg: None,
            bg: if row.focused { Some(PaletteColor::ActiveRowBg) } else { None },
            bold: false,
            dim: false,
            italic: false,
        }),
        s.icon == (CellStyle {
            fg: Some(PaletteColor::Status(row.status)),
            bg: None,
            bold: false,
            dim: false,
            italic: false,
        }),
        s.status == (CellStyle {
            fg: Some(PaletteColor::Status(row.status)),
            bg: None,
            bold: false,
            dim: !row.focused,
            italic: false,
        }),
        s.name == (CellStyle {
            fg: Some(if row.focused { PaletteColor::Text } else { PaletteColor::Subtext0 }),
            bg: None,
            bold: true,
            dim: row.remote,
            italic: row.remote,
        }),
        s.secondary == (CellStyle {
            fg: Some(PaletteColor::Overlay0),
            bg: None,
            bold: false,
            dim: true,
            italic: false,
        }),
{
    let line = CellStyle {
        fg: None,
        bg: if row.focused { Some(PaletteColor::ActiveRowBg) } else { None },
        bold: false,
        dim: false,
        italic: false,
    };
    let icon = CellStyle {
        fg: Some(PaletteColor::Status(row.status)),
        bg: None,
        bold: false,
        dim: false,
        italic: false,
    };
    let status = CellStyle { dim: !row.focused, ..icon };
    let name = CellStyle {
        fg: Some(if row.focused { PaletteColor::Text } else { PaletteColor::Subtext0 }),
        bg: None,
        bold: true,
        dim: row.remote,
        italic: row.remote,
    };
    let secondary = CellStyle {
        fg: Some(PaletteColor::Overlay0),
        bg: None,
        bold: false,
        dim: true,
        italic: false,
    };
    RowStyles { line, icon, status, name, secondary }
}

// ---------------------------------------------------------------------
// The whole panel
// ---------------------------------------------------------------------

/// Every placed row is one of the rows.
proof fn lemma_placed_rows_in_range(
    body: Rect,
    lines: Seq<usize>,
    gap: u16,
    content_width: u16,
    index: int,
    y: u16,
)
    ensures
        forall|k: int|
            0 <= k < place_rows_from(body, lines, gap, content_width, index, y).len() ==> (
            #[trigger] place_rows_from(body, lines, gap, content_width, index, y)[k]).0 < lines.len(),
    decreases lines.len() - index,
{
    if 0 <= index < lines.len() {
        let height = min_int(row_height(lines[index]) as int, body.height as int) as u16;
        let next = sat_add_u16(
            sat_add_u16(y as int, height as int) as int,
            if index + 1 < lines.len() { gap as int } else { 0 },
        );
        lemma_placed_rows_in_range(body, lines, gap, content_width, index + 1, next);
        let all = place_rows_from(body, lines, gap, content_width, index, y);
        let rest = place_rows_from(body, lines, gap, content_width, index + 1, next);
        if sat_add_u16(y as int, height as int) <= body.spec_bottom() {
            let first = seq![(index as usize, spec_rect(body.x, y, content_width, height))];
            assert(all == first + rest);
            assert forall|k: int| 0 <= k < all.len() implies (#[trigger] all[k]).0 < lines.len() by {
                if k > 0 {
                    assert(all[k] == rest[k - 1]);
                }
            }
        }
    }
}

pub open spec fn empty_view_message() -> Seq<char> {
    " no matching agents"@
}

/// The message an agent view shows when no agent matches it.
pub fn agent_view_empty_message() -> (m: &'static str)
    ensures
        m@ == empty_view_message(),
{
    " no matching agents"
}

/// How the whole agent panel is drawn for one frame.
pub struct PanelPlan {
    pub header: HeaderPlan,
    /// The agent list, when the header leaves room for it.
    pub list: Option<ListPlan>,
    /// The message of an empty list: set in an agent view only.
    pub empty_message: Option<&'static str>,
    /// Click targets of the placed local rows, with their pane ids.
    pub hits: Vec<(Rect, String)>,
}

/// Plan the agent panel in `area`: the header, then (only when the header
/// has its second row) the list of `rows`, whose line counts are `lines`,
/// with `gap` blank lines between rows; an agent view that matches no
/// agent shows its empty message. `max_offset` and `offset` are the list's
/// scroll metrics.
pub fn agent_panel_plan(
    area: Rect,
    view_label: Option<&str>,
    cfg: &PanelConfig,
    rows: &Vec<AgentRow>,
    lines: &Vec<usize>,
    gap: u16,
    max_offset: usize,
    offset: usize,
) -> (plan: PanelPlan)
    requires
        area.height >= 2 ==> area.y < u16::MAX,
        lines@.len() == rows@.len(),
    ensures
        header_plan_matches(
            plan.header,
            area,
            match view_label {
                Some(l) => Some(l@),
                None => None,
            },
            *cfg,
        ),
        match plan.empty_message {
            Some(m) => view_label is Some && m@ == empty_view_message(),
            None => view_label is None,
        },
        area.height < 2 ==> plan.list is None && plan.hits@.len() == 0,
        area.height >= 2 ==> (plan.list matches Some(list) && list_plan_matches(
            list,
            area,
            lines@,
            gap,
            view_label is Some,
            max_offset,
            offset,
        ) && plan.hits@.map_values(|h: (Rect, String)| (h.0, h.1@)) == spec_hit_targets(
            rows_view(rows@),
            list.placed@,
        )),
{
    let header = agent_panel_header_plan(area, view_label, cfg);
    let empty_message = match view_label {
        Some(_) => Some(agent_view_empty_message()),
        None => None,
    };
    if area.height < 2 {
        return PanelPlan { header, list: None, empty_message, hits: Vec::new() };
    }
    let list = agent_list_plan(area, lines, gap, view_label.is_some(), max_offset, offset);
    proof {
        let body = spec_list_body(area);
        if !(body.width == 0 || body.height == 0 || lines@.len() == 0) {
            let scroll_top = if max_offset >= offset { (max_offset - offset) as usize } else { 0usize };
            let show_scrollbar = max_offset > 0 && body.width > 1;
            lemma_placed_rows_in_range(
                body,
                lines@,
                gap,
                spec_content_width(body, show_scrollbar),
                scroll_top as int,
                body.y,
            );
        }
    }
    let hits = agent_hit_targets(rows, &list.placed);
    PanelPlan { header, list: Some(list), empty_message, hits }
}

} // verus!
