//! The payback report: what every battery size would have been worth, as one
//! self-contained HTML file.
//!
//! Energies, amounts of money and periods come in as formatted numbers. In the chart a bar
//! is 30 user units wide, and two panels of 130 units stand above each other.

use vstd::prelude::*;

use crate::coverage::Coverage;
use crate::model::Grouping;
use crate::render;
use crate::render::color;
use crate::render::layout;
use crate::render::layout::{CoverageFigures, Shell};
use crate::render::svg;
use crate::render::svg::Tick;
use crate::storage::pair::Paired;
use crate::text;
use crate::timeutil;
use crate::timeutil::Zone;

verus! {

/// Everything the page needs beyond the sweep itself.
#[derive(Debug)]
pub struct PaybackOptions {
    pub import_entity: String,
    pub export_entity: String,
    /// Facts about the run: source table, timezone, date range, assumptions.
    pub metadata: Vec<(String, String)>,
    pub coverage: Option<(Coverage, CoverageFigures)>,
    pub tz: Zone,
}

impl Default for PaybackOptions {
    fn default() -> (options: Self)
        ensures
            options.import_entity@ == Seq::<char>::empty(),
            options.export_entity@ == Seq::<char>::empty(),
            options.metadata@.len() == 0,
            options.coverage is None,
            options.tz@ == "UTC"@,
    {
        PaybackOptions {
            import_entity: String::new(),
            export_entity: String::new(),
            metadata: Vec::new(),
            coverage: None,
            tz: Zone::utc(),
        }
    }
}

/// What a battery size comes to.
#[derive(Debug)]
pub struct SizeFigures {
    /// Nameplate capacity in kilowatt hours.
    pub capacity: String,
    pub investment: String,
    /// Saved per year.
    pub savings: String,
    /// Energy that did not have to be bought per year.
    pub avoided: String,
    /// Share of the imports that were avoided.
    pub reduction: String,
    pub cycles: String,
    pub payback: String,
    /// Payback of the step up from the size before.
    pub step_up: String,
    /// Top edge and height of the bar in the savings panel.
    pub savings_bar: (String, String),
    /// Top edge and height of the bar in the payback panel, if the size pays back at all.
    pub payback_bar: Option<(String, String)>,
}

/// What going one size further than the best comes to.
#[derive(Debug)]
pub struct NextFigures {
    pub capacity: String,
    /// What it saves per year on top.
    pub savings: String,
    /// What it costs on top.
    pub investment: String,
    /// How long that takes to pay back on its own.
    pub payback: String,
}

/// Payback of one size at one electricity price and several quotes.
#[derive(Debug)]
pub struct PriceRow {
    pub price: String,
    pub paybacks: Vec<String>,
}

/// The prices a sweep was run with, as formatted amounts.
#[derive(Debug)]
pub struct PriceFigures {
    pub price: String,
    /// What a kilowatt hour fed back earns, where it earns anything.
    pub feed_in: Option<String>,
    pub base_cost: String,
    pub cost_per_kwh: String,
}

/// What was measured, as formatted figures.
#[derive(Debug)]
pub struct MeasuredFigures {
    pub import: String,
    pub export: String,
    /// How much history there is.
    pub span: String,
    /// The factor that stretches the history to a year, where it is shorter than one.
    pub annualisation: Option<String>,
}

/// What the simulated sizes come to.
#[derive(Debug)]
pub struct SweepFigures {
    pub sizes: Vec<SizeFigures>,
    /// Position of the fastest payback.
    pub best: Option<usize>,
    /// What the size after the best comes to.
    pub next: Option<NextFigures>,
    /// Gridlines of the savings panel and of the payback panel.
    pub savings_ticks: Vec<Tick>,
    pub payback_ticks: Vec<Tick>,
    /// Other quotes for the best size, and its payback at other prices.
    pub quotes: Vec<String>,
    pub price_rows: Vec<PriceRow>,
}

impl SweepFigures {
    /// The best size is one of those simulated, and there is a next one exactly where a
    /// larger one was tried.
    pub open spec fn wf(self) -> bool {
        &&& self.best matches Some(best) ==> best < self.sizes@.len()
        &&& self.next is Some <==> (self.best matches Some(best) && best + 1 < self.sizes@.len())
    }
}

/// The texts of a list of pairs.
pub open spec fn pair_texts(pairs: Seq<(String, String)>) -> Seq<(Seq<char>, Seq<char>)> {
    Seq::new(pairs.len(), |i: int| (pairs[i].0@, pairs[i].1@))
}

/// `13.5` rather than `13.500000000001`, and `10` rather than `10.0`: a capacity that was
/// formatted with decimals, without the zeros that end them.
pub fn trim_capacity(formatted: &str) -> (result: String)
    ensures
        result@ == text::without_trailing(text::without_trailing(formatted@, '0'), '.'),
{
    text::trim_trailing(text::trim_trailing(formatted, '0').as_str(), '.')
}

/// What a reader is looking at.
pub open spec fn lede_text(price: Seq<char>) -> Seq<char> {
    "Every battery size below was replayed over the recorded history: it stores the surplus that was fed into the grid and gives it back when the house would otherwise have bought power. What it saves at "@
        + price
        + " a kilowatt hour, against what it costs to install, is its payback period."@
}

/// What a reader is looking at.
pub fn lede(price: &str) -> (out: String)
    ensures
        out@ == lede_text(price@),
{
    let mut out: String = String::from_str("Every battery size below was replayed over the recorded history: it stores the surplus that was fed into the grid and gives it back when the house would otherwise have bought power. What it saves at ");
    out.append(price);
    out.append(" a kilowatt hour, against what it costs to install, is its payback period.");
    out
}

/// What was read, and the prices it is judged by.
pub open spec fn entry_texts(options: PaybackOptions, prices: PriceFigures) -> Seq<
    (Seq<char>, Seq<char>),
> {
    let read = seq![
        ("Import"@, options.import_entity@),
        ("Export"@, options.export_entity@),
    ] + pair_texts(options.metadata@);
    let priced = read.push(("Price"@, prices.price@ + " per kWh"@));
    let fed = match prices.feed_in {
        Some(feed_in) => priced.push(("Feed-in"@, feed_in@ + " per kWh"@)),
        None => priced,
    };
    fed.push(
        ("Battery cost"@, prices.base_cost@ + " + "@ + prices.cost_per_kwh@ + " per kWh"@),
    )
}

/// What was read, and the prices it is judged by.
pub fn metadata_entries(options: &PaybackOptions, prices: &PriceFigures) -> (entries: Vec<
    (String, String),
>)
    ensures
        pair_texts(entries@) == entry_texts(*options, *prices),
{
    let mut entries: Vec<(String, String)> = Vec::new();
    entries.push((String::from_str("Import"), options.import_entity.clone()));
    entries.push((String::from_str("Export"), options.export_entity.clone()));
    let ghost start = seq![
        ("Import"@, options.import_entity@),
        ("Export"@, options.export_entity@),
    ];
    let mut i: usize = 0;
    assert(pair_texts(entries@) =~= start + pair_texts(options.metadata@.take(0)));
    while i < options.metadata.len()
        invariant
            i <= options.metadata@.len(),
            pair_texts(entries@) == start + pair_texts(options.metadata@.take(i as int)),
        decreases options.metadata@.len() - i,
    {
        let ghost before = entries@;
        entries.push((options.metadata[i].0.clone(), options.metadata[i].1.clone()));
        i = i + 1;
        proof {
            let now = options.metadata@.take(i as int);
            assert(pair_texts(now) =~= pair_texts(options.metadata@.take(i - 1)).push(
                (now[i - 1].0@, now[i - 1].1@),
            ));
            assert(pair_texts(entries@) =~= pair_texts(before).push(
                (now[i - 1].0@, now[i - 1].1@),
            ));
            assert(pair_texts(entries@) =~= start + pair_texts(now));
        }
    }
    proof {
        assert(options.metadata@.take(i as int) =~= options.metadata@);
    }
    let ghost read = pair_texts(entries@);
    let mut price: String = prices.price.clone();
    price.append(" per kWh");
    entries.push((String::from_str("Price"), price));
    let ghost priced = pair_texts(entries@);
    assert(priced =~= read.push(("Price"@, prices.price@ + " per kWh"@)));
    if let Some(feed_in) = &prices.feed_in {
        let mut earned: String = feed_in.clone();
        earned.append(" per kWh");
        entries.push((String::from_str("Feed-in"), earned));
        assert(pair_texts(entries@) =~= priced.push(("Feed-in"@, feed_in@ + " per kWh"@)));
    }
    let ghost fed = pair_texts(entries@);
    let mut cost: String = prices.base_cost.clone();
    cost.append(" + ");
    cost.append(prices.cost_per_kwh.as_str());
    cost.append(" per kWh");
    entries.push((String::from_str("Battery cost"), cost));
    assert(pair_texts(entries@) =~= fed.push(
        ("Battery cost"@, prices.base_cost@ + " + "@ + prices.cost_per_kwh@ + " per kWh"@),
    ));
    entries
}

// ---------------------------------------------------------------------------------------
// The chart
// ---------------------------------------------------------------------------------------

/// The line the hover readout shows, and the one the table row repeats.
pub open spec fn describe_text(figures: SizeFigures) -> Seq<char> {
    figures.capacity@
        + " kWh: "@
        + figures.savings@
        + " a year, "@
        + figures.investment@
        + " to install, pays back in "@
        + figures.payback@
}

/// The line the hover readout shows, and the one the table row repeats.
pub fn describe(figures: &SizeFigures) -> (out: String)
    ensures
        out@ == describe_text(*figures),
{
    let mut out: String = String::from_str(figures.capacity.as_str());
    out.append(" kWh: ");
    out.append(figures.savings.as_str());
    out.append(" a year, ");
    out.append(figures.investment.as_str());
    out.append(" to install, pays back in ");
    out.append(figures.payback.as_str());
    out
}

/// One gridline of a panel with its label.
pub open spec fn panel_tick_text(tick: Tick, sizes: nat) -> Seq<char> {
    "<line x1=\"62.0\" y1=\""@
        + tick.y@
        + "\" x2=\""@
        + text::decimal(62 + 30 * sizes)
        + ".0\" y2=\""@
        + tick.y@
        + "\"/><text class=\"tick\" x=\"57.0\" y=\""@
        + tick.label_y@
        + "\" text-anchor=\"end\">"@
        + render::escaped(tick.label@)
        + "</text>"@
}

/// One gridline of a panel with its label.
fn draw_tick(tick: &Tick, sizes: usize) -> (out: String)
    ensures
        out@ == panel_tick_text(*tick, sizes as nat),
{
    let mut out: String = String::from_str("<line x1=\"62.0\" y1=\"");
    out.append(tick.y.as_str());
    out.append("\" x2=\"");
    text::push_wide(&mut out, 62 + 30 * (sizes as u128));
    out.append(".0\" y2=\"");
    out.append(tick.y.as_str());
    out.append("\"/><text class=\"tick\" x=\"57.0\" y=\"");
    out.append(tick.label_y.as_str());
    out.append("\" text-anchor=\"end\">");
    out.append(render::escape(tick.label.as_str()).as_str());
    out.append("</text>");
    out
}

/// The first `count` gridlines of a panel.
pub open spec fn panel_ticks_text(ticks: Seq<Tick>, sizes: nat, count: nat) -> Seq<char>
    decreases count,
{
    if count == 0 {
        Seq::empty()
    } else {
        panel_ticks_text(ticks, sizes, (count - 1) as nat) + panel_tick_text(
            ticks[count - 1],
            sizes,
        )
    }
}

fn draw_ticks(ticks: &[Tick], sizes: usize) -> (out: String)
    ensures
        out@ == panel_ticks_text(ticks@, sizes as nat, ticks@.len()),
{
    let mut out: String = String::new();
    let mut i: usize = 0;
    while i < ticks.len()
        invariant
            i <= ticks@.len(),
            out@ == panel_ticks_text(ticks@, sizes as nat, i as nat),
        decreases ticks@.len() - i,
    {
        out.append(draw_tick(&ticks[i], sizes).as_str());
        i = i + 1;
    }
    out
}

/// The gridlines and the title of one panel.
pub open spec fn panel_text(ticks: Seq<Tick>, sizes: nat, title_y: Seq<char>, title: Seq<char>) -> Seq<char> {
    "<g class=\"grid\">"@
        + panel_ticks_text(ticks, sizes, ticks.len())
        + "<text class=\"axis-title\" x=\"62.0\" y=\""@
        + title_y
        + "\">"@
        + title
        + "</text></g>"@
}

/// The gridlines and the title of one panel.
fn panel(ticks: &[Tick], sizes: usize, title_y: &str, title: &str) -> (out: String)
    ensures
        out@ == panel_text(ticks@, sizes as nat, title_y@, title@),
{
    let mut out: String = String::from_str("<g class=\"grid\">");
    out.append(draw_ticks(ticks, sizes).as_str());
    out.append("<text class=\"axis-title\" x=\"62.0\" y=\"");
    out.append(title_y);
    out.append("\">");
    out.append(title);
    out.append("</text></g>");
    out
}

/// A bar.
pub open spec fn bar_rect_text(class: Seq<char>, index: nat, y: Seq<char>, height: Seq<char>) -> Seq<char> {
    "<rect class=\""@
        + class
        + "\" x=\""@
        + text::decimal(65 + 30 * index)
        + ".0\" y=\""@
        + y
        + "\" width=\"24.0\" height=\""@
        + height
        + "\"/>"@
}

/// A bar.
fn bar_rect(class: &str, index: usize, y: &str, height: &str) -> (out: String)
    ensures
        out@ == bar_rect_text(class@, index as nat, y@, height@),
{
    let mut out: String = String::from_str("<rect class=\"");
    out.append(class);
    out.append("\" x=\"");
    text::push_wide(&mut out, 65 + 30 * (index as u128));
    out.append(".0\" y=\"");
    out.append(y);
    out.append("\" width=\"24.0\" height=\"");
    out.append(height);
    out.append("\"/>");
    out
}

/// The bar of a size in the payback panel; a size that never pays back still gets a mark,
/// so that the reader sees it was tried.
pub open spec fn payback_rect_text(figures: SizeFigures, index: nat) -> Seq<char> {
    match figures.payback_bar {
        Some((y, height)) => bar_rect_text("payback"@, index, y@, height@),
        None => bar_rect_text("never"@, index, "323.0"@, "3"@),
    }
}

fn payback_rect(figures: &SizeFigures, index: usize) -> (out: String)
    ensures
        out@ == payback_rect_text(*figures, index as nat),
{
    match &figures.payback_bar {
        Some((y, height)) => bar_rect("payback", index, y.as_str(), height.as_str()),
        None => bar_rect("never", index, "323.0", "3"),
    }
}

/// Both bars of one size, in a group so that hovering either reads out the whole row.
pub open spec fn size_text(figures: SizeFigures, index: nat, best: bool) -> Seq<char> {
    "<g class=\"bar"@
        + (if best { " best"@ } else { ""@ })
        + "\">"@
        + bar_rect_text("savings"@, index, figures.savings_bar.0@, figures.savings_bar.1@)
        + payback_rect_text(figures, index)
        + "<text class=\"readout\" x=\"62.0\" y=\"14.0\">"@
        + render::escaped(describe_text(figures))
        + "</text></g>"@
}

/// Both bars of one size, in a group so that hovering either reads out the whole row.
fn draw_size(figures: &SizeFigures, index: usize, best: bool) -> (out: String)
    ensures
        out@ == size_text(*figures, index as nat, best),
{
    let mut out: String = String::from_str("<g class=\"bar");
    out.append(if best { " best" } else { "" });
    out.append("\">");
    out.append(bar_rect("savings", index, figures.savings_bar.0.as_str(), figures.savings_bar.1.as_str()).as_str());
    out.append(payback_rect(figures, index).as_str());
    out.append("<text class=\"readout\" x=\"62.0\" y=\"14.0\">");
    out.append(render::escape(describe(figures).as_str()).as_str());
    out.append("</text></g>");
    out
}

/// The bars of the first `count` sizes.
pub open spec fn sizes_text(
    sizes: Seq<SizeFigures>,
    best: Option<usize>,
    count: nat,
) -> Seq<char>
    decreases count,
{
    if count == 0 {
        Seq::empty()
    } else {
        sizes_text(sizes, best, (count - 1) as nat) + size_text(
            sizes[count - 1],
            (count - 1) as nat,
            is_best(best, count - 1),
        )
    }
}

/// Whether a position is that of the fastest payback.
pub open spec fn is_best(best: Option<usize>, index: int) -> bool {
    match best {
        Some(best) => best == index,
        None => false,
    }
}

fn at_best(best: Option<usize>, index: usize) -> (yes: bool)
    ensures
        yes == is_best(best, index as int),
{
    match best {
        Some(best) => best == index,
        None => false,
    }
}

fn draw_sizes(sizes: &[SizeFigures], best: Option<usize>) -> (out: String)
    ensures
        out@ == sizes_text(sizes@, best, sizes@.len()),
{
    let mut out: String = String::new();
    let mut i: usize = 0;
    while i < sizes.len()
        invariant
            i <= sizes@.len(),
            out@ == sizes_text(sizes@, best, i as nat),
        decreases sizes@.len() - i,
    {
        out.append(draw_size(&sizes[i], i, at_best(best, i)).as_str());
        i = i + 1;
    }
    out
}

/// Every how many sizes one is labelled.
pub open spec fn label_stride(sizes: nat) -> nat {
    if sizes / 12 > 1 {
        sizes / 12
    } else {
        1
    }
}

/// The label of one size on the axis.
pub open spec fn size_label_text(figures: SizeFigures, index: nat) -> Seq<char> {
    "<text class=\"tick\" x=\""@
        + text::decimal(77 + 30 * index)
        + ".0\" y=\"342.0\" text-anchor=\"middle\">"@
        + render::escaped(figures.capacity@)
        + "</text>"@
}

/// The label of one size on the axis.
fn size_label(figures: &SizeFigures, index: usize) -> (out: String)
    ensures
        out@ == size_label_text(*figures, index as nat),
{
    let mut out: String = String::from_str("<text class=\"tick\" x=\"");
    text::push_wide(&mut out, 77 + 30 * (index as u128));
    out.append(".0\" y=\"342.0\" text-anchor=\"middle\">");
    out.append(render::escape(figures.capacity.as_str()).as_str());
    out.append("</text>");
    out
}

/// The labels of the first `count` sizes, leaving out those between the strides.
pub open spec fn labels_text(sizes: Seq<SizeFigures>, stride: nat, count: nat) -> Seq<char>
    decreases count,
{
    if count == 0 {
        Seq::empty()
    } else if (count - 1) % stride as int == 0 {
        labels_text(sizes, stride, (count - 1) as nat) + size_label_text(
            sizes[count - 1],
            (count - 1) as nat,
        )
    } else {
        labels_text(sizes, stride, (count - 1) as nat)
    }
}

/// One x label per size while they fit, otherwise every second or third.
fn draw_labels(sizes: &[SizeFigures]) -> (out: String)
    ensures
        out@ == labels_text(sizes@, label_stride(sizes@.len()), sizes@.len()),
{
    let stride: usize = if sizes.len() / 12 > 1 {
        sizes.len() / 12
    } else {
        1
    };
    let mut out: String = String::new();
    let mut i: usize = 0;
    while i < sizes.len()
        invariant
            i <= sizes@.len(),
            stride == label_stride(sizes@.len()),
            stride >= 1,
            out@ == labels_text(sizes@, stride as nat, i as nat),
        decreases sizes@.len() - i,
    {
        if i % stride == 0 {
            out.append(size_label(&sizes[i], i).as_str());
        }
        i = i + 1;
    }
    out
}

/// What every size saves and how long it takes to pay back, as a chart.
pub open spec fn chart_text(sweep: SweepFigures) -> Seq<char> {
    "<svg class=\"sweep-chart\" viewBox=\"0 0 "@
        + text::decimal(76 + 30 * sweep.sizes@.len())
        + " 368\" role=\"img\" aria-label=\"Annual savings and payback period by battery size\" preserveAspectRatio=\"xMidYMid meet\">"@
        + panel_text(sweep.savings_ticks@, sweep.sizes@.len(), "20.0"@, "saved per year"@)
        + panel_text(sweep.payback_ticks@, sweep.sizes@.len(), "190.0"@, "years to pay back"@)
        + "<g class=\"series\">"@
        + sizes_text(sweep.sizes@, sweep.best, sweep.sizes@.len())
        + "</g><g class=\"axis\"><line x1=\"62.0\" y1=\"326.0\" x2=\""@
        + text::decimal(62 + 30 * sweep.sizes@.len())
        + ".0\" y2=\"326.0\"/>"@
        + labels_text(sweep.sizes@, label_stride(sweep.sizes@.len()), sweep.sizes@.len())
        + "<text class=\"axis-title\" x=\""@
        + text::decimal(62 + 15 * sweep.sizes@.len())
        + ".0\" y=\"360.0\" text-anchor=\"middle\">battery size in kWh</text></g></svg>"@
}

/// What every size saves and how long it takes to pay back, as a chart.
pub fn sweep_chart(sweep: &SweepFigures) -> (out: String)
    requires
        sweep.wf(),
    ensures
        out@ == chart_text(*sweep),
{
    let count: usize = sweep.sizes.len();
    let mut out: String = String::from_str("<svg class=\"sweep-chart\" viewBox=\"0 0 ");
    text::push_wide(&mut out, 76 + 30 * (count as u128));
    out.append(" 368\" role=\"img\" aria-label=\"Annual savings and payback period by battery size\" preserveAspectRatio=\"xMidYMid meet\">");
    out.append(panel(sweep.savings_ticks.as_slice(), count, "20.0", "saved per year").as_str());
    out.append(panel(sweep.payback_ticks.as_slice(), count, "190.0", "years to pay back").as_str());
    out.append("<g class=\"series\">");
    out.append(draw_sizes(sweep.sizes.as_slice(), sweep.best).as_str());
    out.append("</g><g class=\"axis\"><line x1=\"62.0\" y1=\"326.0\" x2=\"");
    text::push_wide(&mut out, 62 + 30 * (count as u128));
    out.append(".0\" y2=\"326.0\"/>");
    out.append(draw_labels(sweep.sizes.as_slice()).as_str());
    out.append("<text class=\"axis-title\" x=\"");
    text::push_wide(&mut out, 62 + 15 * (count as u128));
    out.append(".0\" y=\"360.0\" text-anchor=\"middle\">battery size in kWh</text></g></svg>");
    out
}

// ---------------------------------------------------------------------------------------
// The table
// ---------------------------------------------------------------------------------------

/// One row of the table.
pub open spec fn row_text(figures: SizeFigures, best: bool) -> Seq<char> {
    "<tr"@
        + (if best { " class=\"best\""@ } else { ""@ })
        + "><th scope=\"row\">"@
        + render::escaped(figures.capacity@)
        + " kWh</th><td>"@
        + render::escaped(figures.investment@)
        + "</td><td>"@
        + render::escaped(figures.savings@)
        + "</td><td>"@
        + render::escaped(figures.avoided@)
        + " ("@
        + render::escaped(figures.reduction@)
        + ")</td><td>"@
        + figures.cycles@
        + "</td><td>"@
        + render::escaped(figures.payback@)
        + "</td><td>"@
        + render::escaped(figures.step_up@)
        + "</td></tr>"@
}

/// One row of the table.
fn sweep_row(figures: &SizeFigures, best: bool) -> (out: String)
    ensures
        out@ == row_text(*figures, best),
{
    let mut out: String = String::from_str("<tr");
    out.append(if best { " class=\"best\"" } else { "" });
    out.append("><th scope=\"row\">");
    out.append(render::escape(figures.capacity.as_str()).as_str());
    out.append(" kWh</th><td>");
    out.append(render::escape(figures.investment.as_str()).as_str());
    out.append("</td><td>");
    out.append(render::escape(figures.savings.as_str()).as_str());
    out.append("</td><td>");
    out.append(render::escape(figures.avoided.as_str()).as_str());
    out.append(" (");
    out.append(render::escape(figures.reduction.as_str()).as_str());
    out.append(")</td><td>");
    out.append(figures.cycles.as_str());
    out.append("</td><td>");
    out.append(render::escape(figures.payback.as_str()).as_str());
    out.append("</td><td>");
    out.append(render::escape(figures.step_up.as_str()).as_str());
    out.append("</td></tr>");
    out
}

/// The rows of the first `count` sizes.
pub open spec fn rows_text(sizes: Seq<SizeFigures>, best: Option<usize>, count: nat) -> Seq<char>
    decreases count,
{
    if count == 0 {
        Seq::empty()
    } else {
        rows_text(sizes, best, (count - 1) as nat) + row_text(
            sizes[count - 1],
            is_best(best, count - 1),
        )
    }
}

fn sweep_rows(sizes: &[SizeFigures], best: Option<usize>) -> (out: String)
    ensures
        out@ == rows_text(sizes@, best, sizes@.len()),
{
    let mut out: String = String::new();
    let mut i: usize = 0;
    while i < sizes.len()
        invariant
            i <= sizes@.len(),
            out@ == rows_text(sizes@, best, i as nat),
        decreases sizes@.len() - i,
    {
        out.append(sweep_row(&sizes[i], at_best(best, i)).as_str());
        i = i + 1;
    }
    out
}

/// Every size that was simulated, with the fastest payback highlighted.
pub open spec fn table_text(sweep: SweepFigures) -> Seq<char> {
    "<div class=\"table-scroll\"><table class=\"sweep-table\"><caption>Every size that was simulated, with the fastest payback highlighted</caption><thead><tr><th scope=\"col\">Size</th><th scope=\"col\">Investment</th><th scope=\"col\">Saved per year</th><th scope=\"col\">Import avoided</th><th scope=\"col\">Cycles per year</th><th scope=\"col\">Payback</th><th scope=\"col\">The step up</th></tr></thead><tbody>"@
        + rows_text(sweep.sizes@, sweep.best, sweep.sizes@.len())
        + "</tbody></table></div>"@
}

/// Every size that was simulated, with the fastest payback highlighted.
pub fn sweep_table(sweep: &SweepFigures) -> (out: String)
    ensures
        out@ == table_text(*sweep),
{
    let mut out: String = String::from_str("<div class=\"table-scroll\"><table class=\"sweep-table\"><caption>Every size that was simulated, with the fastest payback highlighted</caption><thead><tr><th scope=\"col\">Size</th><th scope=\"col\">Investment</th><th scope=\"col\">Saved per year</th><th scope=\"col\">Import avoided</th><th scope=\"col\">Cycles per year</th><th scope=\"col\">Payback</th><th scope=\"col\">The step up</th></tr></thead><tbody>");
    out.append(sweep_rows(sweep.sizes.as_slice(), sweep.best).as_str());
    out.append("</tbody></table></div>");
    out
}

/// The chart and the table: every size, what it saves and what it takes to pay for itself.
pub open spec fn sweep_text(sweep: SweepFigures) -> Seq<char> {
    "<section class=\"panel sweep\"><h2>Payback by battery size</h2>"@
        + (if sweep.sizes@.len() == 0 { "<p class=\"empty\">No battery sizes were simulated.</p>"@ } else { chart_text(sweep)
        + table_text(sweep) })
        + "</section>"@
}

/// The chart and the table: every size, what it saves and what it takes to pay for itself.
pub fn sweep_section(sweep: &SweepFigures) -> (out: String)
    requires
        sweep.wf(),
    ensures
        out@ == sweep_text(*sweep),
{
    let part_1: String = if sweep.sizes.len() == 0 {
        let mut part: String = String::from_str("<p class=\"empty\">No battery sizes were simulated.</p>");
        part
    } else {
        let mut part: String = String::from_str(sweep_chart(sweep).as_str());
        part.append(sweep_table(sweep).as_str());
        part
    };
    let mut out: String = String::from_str("<section class=\"panel sweep\"><h2>Payback by battery size</h2>");
    out.append(part_1.as_str());
    out.append("</section>");
    out
}

// ---------------------------------------------------------------------------------------
// The verdict
// ---------------------------------------------------------------------------------------

/// What the size after the best would add.
pub open spec fn next_text(figures: NextFigures) -> Seq<char> {
    "<p>Going one step further to "@
        + render::escaped(figures.capacity@)
        + " kWh adds "@
        + render::escaped(figures.savings@)
        + " a year for another "@
        + render::escaped(figures.investment@)
        + ", which on its own takes "@
        + render::escaped(figures.payback@)
        + " to pay back - that is where extra capacity stops earning its keep.</p>"@
}

/// What the size after the best would add.
fn next_paragraph(figures: &NextFigures) -> (out: String)
    ensures
        out@ == next_text(*figures),
{
    let mut out: String = String::from_str("<p>Going one step further to ");
    out.append(render::escape(figures.capacity.as_str()).as_str());
    out.append(" kWh adds ");
    out.append(render::escape(figures.savings.as_str()).as_str());
    out.append(" a year for another ");
    out.append(render::escape(figures.investment.as_str()).as_str());
    out.append(", which on its own takes ");
    out.append(render::escape(figures.payback.as_str()).as_str());
    out.append(" to pay back - that is where extra capacity stops earning its keep.</p>");
    out
}

/// What the best size comes to.
pub open spec fn best_text(figures: SizeFigures) -> Seq<char> {
    "<p>A <strong>"@
        + render::escaped(figures.capacity@)
        + " kWh</strong> battery pays for itself fastest: "@
        + render::escaped(figures.investment@)
        + " to install, "@
        + render::escaped(figures.savings@)
        + " a year of grid imports avoided, paid off in <strong>"@
        + render::escaped(figures.payback@)
        + "</strong>.</p><p>It covers "@
        + render::escaped(figures.reduction@)
        + " of everything the house bought from the grid, cycling "@
        + figures.cycles@
        + " times a year.</p>"@
}

/// What the best size comes to.
fn best_paragraphs(figures: &SizeFigures) -> (out: String)
    ensures
        out@ == best_text(*figures),
{
    let mut out: String = String::from_str("<p>A <strong>");
    out.append(render::escape(figures.capacity.as_str()).as_str());
    out.append(" kWh</strong> battery pays for itself fastest: ");
    out.append(render::escape(figures.investment.as_str()).as_str());
    out.append(" to install, ");
    out.append(render::escape(figures.savings.as_str()).as_str());
    out.append(" a year of grid imports avoided, paid off in <strong>");
    out.append(render::escape(figures.payback.as_str()).as_str());
    out.append("</strong>.</p><p>It covers ");
    out.append(render::escape(figures.reduction.as_str()).as_str());
    out.append(" of everything the house bought from the grid, cycling ");
    out.append(figures.cycles.as_str());
    out.append(" times a year.</p>");
    out
}

/// What the sweep says: which size pays for itself fastest, and what the next would add.
pub open spec fn verdict_text(sweep: SweepFigures) -> Seq<char> {
    match sweep.best {
        None => "<p>No battery in this sweep pays for itself. That happens when little of the energy bought from the grid could have come from the surplus fed into it - either because the two rarely swap places over a day, or because the export is too small to fill a battery worth installing.</p><p>The sensitivity block below shows what a different price would do, and --sizes can try smaller batteries than this sweep did.</p>"@,
        Some(best) => best_text(sweep.sizes@[best as int]) + (match sweep.next {
            Some(next) => next_text(next),
            None => "<p>It is also the largest size that was tried, so a bigger battery might still be worth looking at: raise --max-size to find out.</p>"@,
        }),
    }
}

fn verdict(sweep: &SweepFigures) -> (out: String)
    requires
        sweep.wf(),
    ensures
        out@ == verdict_text(*sweep),
{
    match sweep.best {
        None => String::from_str(
            "<p>No battery in this sweep pays for itself. That happens when little of the energy bought from the grid could have come from the surplus fed into it - either because the two rarely swap places over a day, or because the export is too small to fill a battery worth installing.</p><p>The sensitivity block below shows what a different price would do, and --sizes can try smaller batteries than this sweep did.</p>",
        ),
        Some(best) => {
            let mut out: String = best_paragraphs(&sweep.sizes[best]);
            match &sweep.next {
                Some(next) => out.append(next_paragraph(next).as_str()),
                None => out.append(
                    "<p>It is also the largest size that was tried, so a bigger battery might still be worth looking at: raise --max-size to find out.</p>",
                ),
            }
            out
        },
    }
}

/// What the sweep actually recommends, in words.
pub open spec fn recommendation_text(sweep: SweepFigures) -> Seq<char> {
    "<section class=\"panel recommendation\"><h2>What it says</h2>"@
        + verdict_text(sweep)
        + "</section>"@
}

/// What the sweep actually recommends, in words.
pub fn recommendation(sweep: &SweepFigures) -> (out: String)
    requires
        sweep.wf(),
    ensures
        out@ == recommendation_text(*sweep),
{
    let mut out: String = String::from_str("<section class=\"panel recommendation\"><h2>What it says</h2>");
    out.append(verdict(sweep).as_str());
    out.append("</section>");
    out
}

/// The first `count` column headings.
pub open spec fn headings_text(items: Seq<String>, count: nat) -> Seq<char>
    decreases count,
{
    if count == 0 {
        Seq::empty()
    } else {
        headings_text(items, (count - 1) as nat) + ("<th scope=\"col\">"@ + render::escaped(items[count - 1]@)
            + "</th>"@)
    }
}

fn headings(items: &[String]) -> (out: String)
    ensures
        out@ == headings_text(items@, items@.len()),
{
    let mut out: String = String::new();
    let mut i: usize = 0;
    while i < items.len()
        invariant
            i <= items@.len(),
            out@ == headings_text(items@, i as nat),
        decreases items@.len() - i,
    {
        let mut item: String = String::from_str("<th scope=\"col\">");
        item.append(render::escape(items[i].as_str()).as_str());
        item.append("</th>");
        out.append(item.as_str());
        i = i + 1;
    }
    out
}

/// The first `count` cells.
pub open spec fn cells_text(items: Seq<String>, count: nat) -> Seq<char>
    decreases count,
{
    if count == 0 {
        Seq::empty()
    } else {
        cells_text(items, (count - 1) as nat) + ("<td>"@ + render::escaped(items[count - 1]@)
            + "</td>"@)
    }
}

fn cells(items: &[String]) -> (out: String)
    ensures
        out@ == cells_text(items@, items@.len()),
{
    let mut out: String = String::new();
    let mut i: usize = 0;
    while i < items.len()
        invariant
            i <= items@.len(),
            out@ == cells_text(items@, i as nat),
        decreases items@.len() - i,
    {
        let mut item: String = String::from_str("<td>");
        item.append(render::escape(items[i].as_str()).as_str());
        item.append("</td>");
        out.append(item.as_str());
        i = i + 1;
    }
    out
}

/// Payback at one electricity price.
pub open spec fn price_row_text(row: PriceRow) -> Seq<char> {
    "<tr><th scope=\"row\">"@
        + render::escaped(row.price@)
        + "</th>"@
        + cells_text(row.paybacks@, row.paybacks@.len())
        + "</tr>"@
}

/// Payback at one electricity price.
fn price_row(row: &PriceRow) -> (out: String)
    ensures
        out@ == price_row_text(*row),
{
    let mut out: String = String::from_str("<tr><th scope=\"row\">");
    out.append(render::escape(row.price.as_str()).as_str());
    out.append("</th>");
    out.append(cells(row.paybacks.as_slice()).as_str());
    out.append("</tr>");
    out
}

/// Payback at the first `count` electricity prices.
pub open spec fn price_rows_text(rows: Seq<PriceRow>, count: nat) -> Seq<char>
    decreases count,
{
    if count == 0 {
        Seq::empty()
    } else {
        price_rows_text(rows, (count - 1) as nat) + price_row_text(rows[count - 1])
    }
}

fn price_rows(rows: &[PriceRow]) -> (out: String)
    ensures
        out@ == price_rows_text(rows@, rows@.len()),
{
    let mut out: String = String::new();
    let mut i: usize = 0;
    while i < rows.len()
        invariant
            i <= rows@.len(),
            out@ == price_rows_text(rows@, i as nat),
        decreases rows@.len() - i,
    {
        out.append(price_row(&rows[i]).as_str());
        i = i + 1;
    }
    out
}

/// Payback of one size at other prices and other quotes.
pub open spec fn price_grid_text(capacity: Seq<char>, quotes: Seq<String>, rows: Seq<PriceRow>) -> Seq<char> {
    "<section class=\"panel sensitivity\"><h2>If the numbers move</h2><p>Payback of the "@
        + render::escaped(capacity)
        + " kWh battery at other electricity prices and other quotes. Nothing is re-simulated: the energy it shifts does not depend on what anything costs.</p><div class=\"table-scroll\"><table class=\"sensitivity-table\"><thead><tr><th scope=\"col\">Price per kWh</th>"@
        + headings_text(quotes, quotes.len())
        + "</tr></thead><tbody>"@
        + price_rows_text(rows, rows.len())
        + "</tbody></table></div></section>"@
}

/// Payback of one size at other prices and other quotes.
fn price_grid(capacity: &str, quotes: &[String], rows: &[PriceRow]) -> (out: String)
    ensures
        out@ == price_grid_text(capacity@, quotes@, rows@),
{
    let mut out: String = String::from_str("<section class=\"panel sensitivity\"><h2>If the numbers move</h2><p>Payback of the ");
    out.append(render::escape(capacity).as_str());
    out.append(" kWh battery at other electricity prices and other quotes. Nothing is re-simulated: the energy it shifts does not depend on what anything costs.</p><div class=\"table-scroll\"><table class=\"sensitivity-table\"><thead><tr><th scope=\"col\">Price per kWh</th>");
    out.append(headings(quotes).as_str());
    out.append("</tr></thead><tbody>");
    out.append(price_rows(rows).as_str());
    out.append("</tbody></table></div></section>");
    out
}

/// The best battery at other prices and other quotes; nothing where no size pays back.
pub open spec fn sensitivity_text(sweep: SweepFigures) -> Seq<char> {
    match sweep.best {
        Some(best) => price_grid_text(
            sweep.sizes@[best as int].capacity@,
            sweep.quotes@,
            sweep.price_rows@,
        ),
        None => Seq::empty(),
    }
}

/// The same battery at other prices and other quotes.
pub fn sensitivity_section(sweep: &SweepFigures) -> (out: String)
    requires
        sweep.wf(),
    ensures
        out@ == sensitivity_text(*sweep),
{
    match sweep.best {
        Some(best) => price_grid(
            sweep.sizes[best].capacity.as_str(),
            sweep.quotes.as_slice(),
            sweep.price_rows.as_slice(),
        ),
        None => String::new(),
    }
}

// ---------------------------------------------------------------------------------------
// What was measured
// ---------------------------------------------------------------------------------------

/// That annual figures are stretched.
pub open spec fn stretched_text(factor: Seq<char>) -> Seq<char> {
    "<p class=\"caution\">That is less than a year, so every annual figure above is the observed period multiplied by "@
        + factor
        + ". A history that is mostly summer will flatter a battery, and one that is mostly winter will do the opposite.</p>"@
}

/// That annual figures are stretched.
fn stretched(factor: &str) -> (out: String)
    ensures
        out@ == stretched_text(factor@),
{
    let mut out: String = String::from_str("<p class=\"caution\">That is less than a year, so every annual figure above is the observed period multiplied by ");
    out.append(factor);
    out.append(". A history that is mostly summer will flatter a battery, and one that is mostly winter will do the opposite.</p>");
    out
}

/// That annual figures are stretched, where they are.
pub open spec fn annual_text(factor: Option<String>) -> Seq<char> {
    match factor {
        Some(factor) => stretched_text(factor@),
        None => Seq::empty(),
    }
}

fn annual(factor: &Option<String>) -> (out: String)
    ensures
        out@ == annual_text(*factor),
{
    match factor {
        Some(factor) => stretched(factor.as_str()),
        None => String::new(),
    }
}

/// What the history actually said, and what it could not say.
pub open spec fn measured_text(paired: Paired, figures: MeasuredFigures) -> Seq<char> {
    "<section class=\"panel measured\"><h2>What was measured</h2><p>"@
        + render::escaped(figures.import@)
        + " bought from the grid and "@
        + render::escaped(figures.export@)
        + " fed back over "@
        + text::decimal(paired.steps@.len())
        + " slots of "@
        + text::signed_decimal(timeutil::whole_units(paired.slot_seconds as int, 60))
        + " minutes, "@
        + render::escaped(figures.span@)
        + " of history in all.</p>"@
        + annual_text(figures.annualisation)
        + (if paired.dropped_partial + paired.dropped_unpaired > 0 { "<p>"@
        + text::decimal((paired.dropped_partial + paired.dropped_unpaired) as nat)
        + " slots were left out: "@
        + text::decimal(paired.dropped_unpaired as nat)
        + " where only one of the two sensors was recording, and "@
        + text::decimal(paired.dropped_partial as nat)
        + " where one of them covered too little of the slot to trust. A battery cannot be sized against a surplus nobody recorded.</p>"@ } else { Seq::empty() })
        + "<p>Import and export inside one "@
        + text::signed_decimal(timeutil::whole_units(paired.slot_seconds as int, 60))
        + " minute slot are not netted off against each other: had they been simultaneous the house would never have imported at all, so they happened at different minutes and bridging them is exactly what a battery does. A finer slot would still be more faithful - try --slot-minutes 5 with --source short-term to see how much it moves.</p><p>These sensors show what crossed the meter, not what the house used or the roof made, so everything here is stated as grid import avoided rather than as self-sufficiency, which this data cannot support.</p></section>"@
}

/// What the history actually said, and what it could not say.
pub fn measured_section(paired: &Paired, figures: &MeasuredFigures) -> (out: String)
    requires
        paired.dropped_partial + paired.dropped_unpaired <= usize::MAX,
    ensures
        out@ == measured_text(*paired, *figures),
{
    let slot: i64 = timeutil::in_units(paired.slot_seconds, 60);
    let dropped: usize = paired.dropped();
    let part_1: String = if dropped > 0 {
        let mut part: String = String::from_str("<p>");
        text::push_number(&mut part, dropped as u64);
        part.append(" slots were left out: ");
        text::push_number(&mut part, paired.dropped_unpaired as u64);
        part.append(" where only one of the two sensors was recording, and ");
        text::push_number(&mut part, paired.dropped_partial as u64);
        part.append(" where one of them covered too little of the slot to trust. A battery cannot be sized against a surplus nobody recorded.</p>");
        part
    } else {
        String::new()
    };
    let mut out: String = String::from_str("<section class=\"panel measured\"><h2>What was measured</h2><p>");
    out.append(render::escape(figures.import.as_str()).as_str());
    out.append(" bought from the grid and ");
    out.append(render::escape(figures.export.as_str()).as_str());
    out.append(" fed back over ");
    text::push_number(&mut out, paired.steps.len() as u64);
    out.append(" slots of ");
    text::push_signed(&mut out, slot);
    out.append(" minutes, ");
    out.append(render::escape(figures.span.as_str()).as_str());
    out.append(" of history in all.</p>");
    out.append(annual(&figures.annualisation).as_str());
    out.append(part_1.as_str());
    out.append("<p>Import and export inside one ");
    text::push_signed(&mut out, slot);
    out.append(" minute slot are not netted off against each other: had they been simultaneous the house would never have imported at all, so they happened at different minutes and bridging them is exactly what a battery does. A finer slot would still be more faithful - try --slot-minutes 5 with --source short-term to see how much it moves.</p><p>These sensors show what crossed the meter, not what the house used or the roof made, so everything here is stated as grid import avoided rather than as self-sufficiency, which this data cannot support.</p></section>");
    out
}

/// Whole hours of a number of seconds, to the nearest.
pub open spec fn rounded_hours(seconds: int) -> int {
    (seconds + 1_800) / 3_600
}

/// The line at the foot of the page.
pub open spec fn footer_text(sizes: nat, observed_seconds: nat, version: Seq<char>) -> Seq<char> {
    "Generated by energy-storage-payback-period "@
        + version
        + " - "@
        + text::decimal(sizes)
        + " sizes simulated over "@
        + text::decimal(rounded_hours(observed_seconds as int) as nat)
        + " slots."@
}

/// The line at the foot of the page.
pub fn footer(sizes: usize, observed_seconds: u64, version: &str) -> (out: String)
    ensures
        out@ == footer_text(sizes as nat, observed_seconds as nat, version@),
{
    let mut out: String = String::from_str("Generated by energy-storage-payback-period ");
    out.append(version);
    out.append(" - ");
    text::push_number(&mut out, sizes as u64);
    out.append(" sizes simulated over ");
    text::push_number(&mut out, ((observed_seconds as u128 + 1_800) / 3_600) as u64);
    out.append(" slots.");
    out
}

/// The complete stylesheet of the page.
pub open spec fn stylesheet_text() -> Seq<char> {
    layout::theme_text(color::DEFAULT_LEVELS as nat)
        + layout::CHROME_CSS@
        + PAYBACK_CSS@
}

/// The complete stylesheet of the page.
pub fn stylesheet() -> (out: String)
    ensures
        out@ == stylesheet_text(),
{
    let mut out: String = String::from_str(layout::theme_stylesheet(color::DEFAULT_LEVELS).as_str());
    out.append(layout::CHROME_CSS);
    out.append(PAYBACK_CSS);
    out
}

/// The History block, where the history is known.
pub open spec fn history_text(options: PaybackOptions) -> Seq<char> {
    match options.coverage {
        Some((coverage, figures)) => layout::coverage_text(
            coverage,
            figures,
            options.tz@,
            Grouping::Month,
            None,
        ),
        None => Seq::empty(),
    }
}

fn history(options: &PaybackOptions) -> (out: String)
    requires
        options.coverage matches Some((coverage, _)) ==> coverage.wf(),
    ensures
        out@ == history_text(*options),
{
    match &options.coverage {
        Some((coverage, figures)) => layout::coverage_section(
            coverage,
            figures,
            &options.tz,
            Grouping::Month,
            None,
        ),
        None => String::new(),
    }
}

/// Everything between the header and the footer.
pub open spec fn body_text(
    entries: Seq<(String, String)>,
    sweep: SweepFigures,
    paired: Paired,
    measured: MeasuredFigures,
    options: PaybackOptions,
) -> Seq<char> {
    layout::metadata_text(entries) + sweep_text(sweep) + recommendation_text(sweep)
        + sensitivity_text(sweep) + measured_text(paired, measured) + history_text(options)
}

/// Whether a text is the complete document.
pub open spec fn is_page(
    out: Seq<char>,
    entries: Seq<(String, String)>,
    shell: Shell<'_>,
    sweep: SweepFigures,
    paired: Paired,
    measured: MeasuredFigures,
    options: PaybackOptions,
) -> bool {
    out == layout::document_text(shell, body_text(entries, sweep, paired, measured, options))
}

/// Render the complete HTML document.
pub fn page(
    sweep: &SweepFigures,
    paired: &Paired,
    prices: &PriceFigures,
    measured: &MeasuredFigures,
    options: &PaybackOptions,
    version: &str,
) -> (out: String)
    requires
        sweep.wf(),
        paired.dropped_partial + paired.dropped_unpaired <= usize::MAX,
        options.coverage matches Some((coverage, _)) ==> coverage.wf(),
    ensures
        exists|entries: Seq<(String, String)>, shell: Shell<'_>| #[trigger]
            is_page(out@, entries, shell, *sweep, *paired, *measured, *options) && pair_texts(
                entries,
            ) == entry_texts(*options, *prices) && shell.title@ == "Energy storage payback period"@
                && shell.lede@ == lede_text(prices.price@) && shell.stylesheet@ == stylesheet_text()
                && shell.defs@ == ""@ && shell.footer@ == footer_text(
                sweep.sizes@.len(),
                paired.observed_seconds as nat,
                version@,
            ),
{
    let entries: Vec<(String, String)> = metadata_entries(options, prices);
    let mut body: String = layout::metadata_list(entries.as_slice());
    body.append(sweep_section(sweep).as_str());
    body.append(recommendation(sweep).as_str());
    body.append(sensitivity_section(sweep).as_str());
    body.append(measured_section(paired, measured).as_str());
    body.append(history(options).as_str());
    let lede: String = lede(prices.price.as_str());
    let stylesheet: String = stylesheet();
    let footer: String = footer(sweep.sizes.len(), paired.observed_seconds, version);
    let shell: Shell<'_> = Shell {
        title: "Energy storage payback period",
        lede: lede.as_str(),
        stylesheet: stylesheet.as_str(),
        defs: "",
        footer: footer.as_str(),
    };
    let out: String = layout::document(&shell, body.as_str());
    assert(is_page(out@, entries@, shell, *sweep, *paired, *measured, *options));
    out
}

/// The rules only this report needs; the chrome it shares lives in
/// [`crate::render::layout::CHROME_CSS`].
pub const PAYBACK_CSS: &'static str = "
.panel {
  margin: 1.25rem 0 0;
  padding: 0.85rem 1rem;
  background: var(--surface);
  border: 1px solid var(--border);
  border-radius: 10px;
}
.panel p { margin: 0 0 0.5rem; color: var(--ink-secondary); max-width: 78ch; }
.panel p:last-child { margin-bottom: 0; }
.panel p strong { color: var(--ink); font-variant-numeric: tabular-nums; }
.panel .caution { color: var(--ink); }
.sweep-chart { width: 100%; height: auto; display: block; margin: 0.25rem 0 0.75rem; }
.sweep-chart .grid line { stroke: var(--grid); stroke-width: 1; }
.sweep-chart .axis line { stroke: var(--axis); stroke-width: 1; }
.sweep-chart .tick { fill: var(--ink-muted); font-size: 11px; font-variant-numeric: tabular-nums; }
.sweep-chart .axis-title { fill: var(--ink-muted); font-size: 10px; }
.sweep-chart .savings { fill: var(--heat-4); }
.sweep-chart .payback { fill: var(--heat-7); }
.sweep-chart .never { fill: var(--axis); }
.sweep-chart .bar.best rect { stroke: var(--ink); stroke-width: 1; paint-order: stroke; }
.sweep-chart .readout {
  display: none;
  fill: var(--ink);
  font-size: 11px;
  font-variant-numeric: tabular-nums;
  pointer-events: none;
}
.sweep-chart .bar:hover .readout { display: block; }
.sweep-chart .bar:hover rect { stroke: var(--ink); stroke-width: 1; paint-order: stroke; }
.table-scroll { overflow-x: auto; margin-top: 0.5rem; }
.panel table { border-collapse: collapse; width: 100%; font-size: 0.8rem; font-variant-numeric: tabular-nums; }
.panel caption { text-align: left; color: var(--ink-muted); padding-bottom: 0.4rem; font-size: 0.78rem; }
.panel th, .panel td { padding: 0.2rem 0.5rem; text-align: right; white-space: nowrap; }
.panel thead th { color: var(--ink-muted); font-weight: 500; border-bottom: 1px solid var(--border); }
.panel tbody th { text-align: left; font-weight: 500; color: var(--ink-secondary); }
.panel tbody tr:nth-child(even) { background: var(--plane); }
.panel tbody tr.best { background: var(--heat-0); color: var(--ink); font-weight: 600; }
.panel tbody tr.best th { color: var(--ink); font-weight: 600; }
.empty { margin-top: 0.5rem; color: var(--ink-secondary); }
";

// ---------------------------------------------------------------------------------------
// What the page says
// ---------------------------------------------------------------------------------------

/// At most one size is the best, and none where nothing pays for itself.
pub proof fn one_size_is_the_best(best: Option<usize>, i: int, j: int)
    ensures
        is_best(best, i) && is_best(best, j) ==> i == j,
        best is None ==> !is_best(best, i),
        best matches Some(at) ==> is_best(best, at as int),
{
}

/// Every size is labelled while there are fewer than two dozen of them, and otherwise about a
/// dozen to two are.
pub proof fn labels_thin_out(sizes: nat)
    ensures
        label_stride(sizes) >= 1,
        sizes < 24 ==> label_stride(sizes) == 1,
        sizes >= 24 ==> 12 * label_stride(sizes) <= sizes < 12 * (label_stride(sizes) + 1),
{
}

/// The sizes that are labelled are the first and every one a whole number of strides behind
/// it; no other has a label.
pub proof fn labels_stand_a_stride_apart(sizes: Seq<SizeFigures>, stride: nat, count: nat)
    requires
        stride >= 1,
        count < sizes.len(),
    ensures
        count % stride == 0 ==> labels_text(sizes, stride, count + 1) == labels_text(
            sizes,
            stride,
            count,
        ) + size_label_text(sizes[count as int], count),
        count % stride != 0 ==> labels_text(sizes, stride, count + 1) == labels_text(
            sizes,
            stride,
            count,
        ),
        labels_text(sizes, stride, 0) == Seq::<char>::empty(),
{
}

/// Every size is drawn and has its row, and only the best is marked as such.
pub proof fn every_size_is_shown(
    sizes: Seq<SizeFigures>,
    best: Option<usize>,
    count: nat,
    i: int,
)
    requires
        0 <= i < count <= sizes.len(),
    ensures
        text::contains_text(
            sizes_text(sizes, best, count),
            size_text(sizes[i], i as nat, best matches Some(at) && at == i),
        ),
        text::contains_text(
            rows_text(sizes, best, count),
            row_text(sizes[i], best matches Some(at) && at == i),
        ),
    decreases count,
{
    let last = count - 1;
    let empty = Seq::<char>::empty();
    let (bars, rows) = (
        sizes_text(sizes, best, last as nat),
        rows_text(sizes, best, last as nat),
    );
    let bar = size_text(sizes[last], last as nat, is_best(best, last));
    let row = row_text(sizes[last], is_best(best, last));
    assert(bars + bar + empty =~= bars + bar);
    assert(rows + row + empty =~= rows + row);
    if i < last {
        every_size_is_shown(sizes, best, last as nat, i);
        assert(empty + bars + bar =~= bars + bar);
        assert(empty + rows + row =~= rows + row);
        text::more_text_takes_nothing_away(
            empty,
            bars,
            bar,
            size_text(sizes[i], i as nat, best matches Some(at) && at == i),
        );
        text::more_text_takes_nothing_away(
            empty,
            rows,
            row,
            row_text(sizes[i], best matches Some(at) && at == i),
        );
    } else {
        text::parts_are_contained(bars, bar, empty);
        text::parts_are_contained(rows, row, empty);
    }
}

/// What a size comes to is told by its capacity, its savings, its price and its payback, in
/// that order.
pub proof fn sizes_are_described_by_their_figures(figures: SizeFigures)
    ensures
        ({
            let line = describe_text(figures);
            &&& line.take(figures.capacity@.len() as int) == figures.capacity@
            &&& text::contains_text(line, figures.savings@)
            &&& text::contains_text(line, figures.investment@)
            &&& text::has_suffix(line, figures.payback@)
        }),
{
    let line = describe_text(figures);
    let head = figures.capacity@ + " kWh: "@;
    let middle = " a year, "@ + figures.investment@ + " to install, pays back in "@
        + figures.payback@;
    assert(line.take(figures.capacity@.len() as int) =~= figures.capacity@);
    text::parts_are_contained(head, figures.savings@, middle);
    assert(line =~= head + figures.savings@ + middle);
    let before = head + figures.savings@ + " a year, "@;
    let after = " to install, pays back in "@ + figures.payback@;
    text::parts_are_contained(before, figures.investment@, after);
    assert(line =~= before + figures.investment@ + after);
    assert(line.skip(line.len() - figures.payback@.len()) =~= figures.payback@);
}

/// The recommendation is about the best size, and says what the next one adds where there is
/// one; the prices are varied only where a size pays for itself at all.
pub proof fn the_best_size_is_recommended(sweep: SweepFigures)
    requires
        sweep.wf(),
    ensures
        sweep.best matches Some(best) ==> text::contains_text(
            recommendation_text(sweep),
            best_text(sweep.sizes@[best as int]),
        ),
        sweep.next matches Some(next) ==> text::contains_text(
            recommendation_text(sweep),
            next_text(next),
        ),
        sweep.best is None <==> sensitivity_text(sweep) == Seq::<char>::empty(),
{
    let open = "<section class=\"panel recommendation\"><h2>What it says</h2>"@;
    let close = "</section>"@;
    if let Some(best) = sweep.best {
        let first = best_text(sweep.sizes@[best as int]);
        let second = match sweep.next {
            Some(next) => next_text(next),
            None => "<p>It is also the largest size that was tried, so a bigger battery might still be worth looking at: raise --max-size to find out.</p>"@,
        };
        text::parts_are_contained(open, first, second + close);
        assert(recommendation_text(sweep) =~= open + first + (second + close));
        text::parts_are_contained(open + first, second, close);
        assert(recommendation_text(sweep) =~= (open + first) + second + close);
        reveal_strlit("<section class=\"panel sensitivity\"><h2>If the numbers move</h2><p>Payback of the ");
        assert(sensitivity_text(sweep)[0] == '<');
    }
}

/// Hours are rounded to the nearest: none is more than half an hour off.
pub proof fn hours_are_rounded_to_the_nearest(seconds: int)
    ensures
        -1_800 <= 3_600 * rounded_hours(seconds) - seconds <= 1_800,
{
}

/// Slots that were left out are spoken of exactly when there are any, by their number and by
/// their reasons.
pub proof fn slots_left_out_are_counted(paired: Paired, figures: MeasuredFigures)
    requires
        paired.dropped_partial + paired.dropped_unpaired > 0,
    ensures
        ({
            let said = measured_text(paired, figures);
            &&& text::contains_text(
                said,
                text::decimal((paired.dropped_partial + paired.dropped_unpaired) as nat)
                    + " slots were left out: "@ + text::decimal(paired.dropped_unpaired as nat)
                    + " where only one of the two sensors was recording, and "@ + text::decimal(
                    paired.dropped_partial as nat,
                ),
            )
            &&& text::contains_text(
                said,
                text::decimal(paired.steps@.len()) + " slots of "@ + text::signed_decimal(
                    timeutil::whole_units(paired.slot_seconds as int, 60),
                ),
            )
        }),
{
    let minutes = text::signed_decimal(timeutil::whole_units(paired.slot_seconds as int, 60));
    let said = measured_text(paired, figures);
    let open = "<section class=\"panel measured\"><h2>What was measured</h2><p>"@
        + render::escaped(figures.import@) + " bought from the grid and "@ + render::escaped(
        figures.export@,
    ) + " fed back over "@;
    let slots = text::decimal(paired.steps@.len()) + " slots of "@ + minutes;
    let span = " minutes, "@ + render::escaped(figures.span@) + " of history in all.</p>"@
        + annual_text(figures.annualisation) + "<p>"@;
    let left = text::decimal((paired.dropped_partial + paired.dropped_unpaired) as nat)
        + " slots were left out: "@ + text::decimal(paired.dropped_unpaired as nat)
        + " where only one of the two sensors was recording, and "@ + text::decimal(
        paired.dropped_partial as nat,
    );
    let front = open + slots + span;
    let rest = said.skip((front.len() + left.len()) as int);
    assert(said.subrange(front.len() as int, (front.len() + left.len()) as int) =~= left);
    assert(text::matches_at(said, left, front.len() as int));
    assert(said.subrange(open.len() as int, (open.len() + slots.len()) as int) =~= slots);
    assert(text::matches_at(said, slots, open.len() as int));
}

/// Every electricity price has its row.
pub proof fn every_price_has_its_row(rows: Seq<PriceRow>, count: nat, i: int)
    requires
        0 <= i < count <= rows.len(),
    ensures
        text::contains_text(price_rows_text(rows, count), price_row_text(rows[i])),
    decreases count,
{
    let last = count - 1;
    let empty = Seq::<char>::empty();
    let before = price_rows_text(rows, last as nat);
    let more = price_row_text(rows[last]);
    assert(before + more + empty =~= before + more);
    if i < last {
        every_price_has_its_row(rows, last as nat, i);
        assert(empty + before + more =~= before + more);
        text::more_text_takes_nothing_away(empty, before, more, price_row_text(rows[i]));
    } else {
        text::parts_are_contained(before, more, empty);
    }
}

/// Every gridline of a panel is drawn.
pub proof fn every_tick_is_drawn(ticks: Seq<Tick>, sizes: nat, count: nat, i: int)
    requires
        0 <= i < count <= ticks.len(),
    ensures
        text::contains_text(panel_ticks_text(ticks, sizes, count), panel_tick_text(ticks[i], sizes)),
    decreases count,
{
    let last = count - 1;
    let empty = Seq::<char>::empty();
    let before = panel_ticks_text(ticks, sizes, last as nat);
    let more = panel_tick_text(ticks[last], sizes);
    assert(before + more + empty =~= before + more);
    if i < last {
        every_tick_is_drawn(ticks, sizes, last as nat, i);
        assert(empty + before + more =~= before + more);
        text::more_text_takes_nothing_away(empty, before, more, panel_tick_text(ticks[i], sizes));
    } else {
        text::parts_are_contained(before, more, empty);
    }
}

/// Every quote has its heading, escaped.
pub proof fn every_quote_has_its_heading(items: Seq<String>, count: nat, i: int)
    requires
        0 <= i < count <= items.len(),
    ensures
        text::contains_text(headings_text(items, count), ("<th scope=\"col\">"@ + render::escaped(items[i]@) + "</th>"@)),
    decreases count,
{
    let last = count - 1;
    let empty = Seq::<char>::empty();
    let before = headings_text(items, last as nat);
    let more = ("<th scope=\"col\">"@ + render::escaped(items[last]@) + "</th>"@);
    assert(before + more + empty =~= before + more);
    if i < last {
        every_quote_has_its_heading(items, last as nat, i);
        assert(empty + before + more =~= before + more);
        text::more_text_takes_nothing_away(empty, before, more, ("<th scope=\"col\">"@ + render::escaped(items[i]@) + "</th>"@));
    } else {
        text::parts_are_contained(before, more, empty);
    }
}

/// Every payback of a price has its cell, escaped.
pub proof fn every_payback_has_its_cell(items: Seq<String>, count: nat, i: int)
    requires
        0 <= i < count <= items.len(),
    ensures
        text::contains_text(cells_text(items, count), ("<td>"@ + render::escaped(items[i]@) + "</td>"@)),
    decreases count,
{
    let last = count - 1;
    let empty = Seq::<char>::empty();
    let before = cells_text(items, last as nat);
    let more = ("<td>"@ + render::escaped(items[last]@) + "</td>"@);
    assert(before + more + empty =~= before + more);
    if i < last {
        every_payback_has_its_cell(items, last as nat, i);
        assert(empty + before + more =~= before + more);
        text::more_text_takes_nothing_away(empty, before, more, ("<td>"@ + render::escaped(items[i]@) + "</td>"@));
    } else {
        text::parts_are_contained(before, more, empty);
    }
}

/// The sizes stand side by side, thirty units each from the left edge of the panels to their
/// right edge: a bar a tenth of that inside its own place, its label in the middle of it.
pub proof fn sizes_stand_side_by_side(
    class: Seq<char>,
    figures: SizeFigures,
    tick: Tick,
    index: nat,
    sizes: nat,
)
    ensures
        ({
            let left = 62 + 30 * index;
            let right = 62 + 30 * sizes;
            &&& forall|y: Seq<char>, height: Seq<char>|
                text::matches_at(
                    #[trigger] bar_rect_text(class, index, y, height),
                    "\" x=\""@ + text::decimal(left + 3) + ".0\""@,
                    (13 + class.len()) as int,
                )
            &&& text::matches_at(
                size_label_text(figures, index),
                "x=\""@ + text::decimal(left + 15) + ".0\""@,
                19,
            )
            &&& text::contains_text(
                panel_tick_text(tick, sizes),
                "\" x2=\""@ + text::decimal(right) + ".0\""@,
            )
        }),
{
    reveal_strlit("<rect class=\"");
    reveal_strlit("\" x=\"");
    reveal_strlit(".0\" y=\"");
    reveal_strlit(".0\"");
    reveal_strlit("<text class=\"tick\" x=\"");
    reveal_strlit("x=\"");
    reveal_strlit(".0\" y=\"342.0\" text-anchor=\"middle\">");
    reveal_strlit(".0\" y2=\"");
    let left = 62 + 30 * index;
    let right = 62 + 30 * sizes;
    assert forall|y: Seq<char>, height: Seq<char>|
        text::matches_at(
            #[trigger] bar_rect_text(class, index, y, height),
            "\" x=\""@ + text::decimal(left + 3) + ".0\""@,
            (13 + class.len()) as int,
        ) by {
        let bar = bar_rect_text(class, index, y, height);
        let needle = "\" x=\""@ + text::decimal(left + 3) + ".0\""@;
        let at = (13 + class.len()) as int;
        assert(bar.subrange(at, at + needle.len()) =~= needle);
    }
    let label = size_label_text(figures, index);
    let place = "x=\""@ + text::decimal(left + 15) + ".0\""@;
    assert(label.subrange(19, 19 + place.len() as int) =~= place);
    let line = panel_tick_text(tick, sizes);
    let end = "\" x2=\""@ + text::decimal(right) + ".0\""@;
    let at = ("<line x1=\"62.0\" y1=\""@.len() + tick.y@.len()) as int;
    assert(line.subrange(at, at + end.len()) =~= end);
    assert(text::matches_at(line, end, at));
}

/// The chart has room for all of its sizes: it is as wide as they are together with its
/// margins, and its axis runs below all of them.
pub proof fn the_chart_has_room_for_all_sizes(sweep: SweepFigures)
    ensures
        ({
            let chart = chart_text(sweep);
            let right = 62 + 30 * sweep.sizes@.len();
            &&& text::matches_at(
                chart,
                "viewBox=\"0 0 "@ + text::decimal(right + 14) + " 368\""@,
                25,
            )
            &&& text::contains_text(
                chart,
                "y1=\"326.0\" x2=\""@ + text::decimal(right) + ".0\" y2=\"326.0\"/>"@,
            )
            &&& text::contains_text(
                chart,
                sizes_text(sweep.sizes@, sweep.best, sweep.sizes@.len()),
            )
        }),
{
    reveal_strlit("<svg class=\"sweep-chart\" viewBox=\"0 0 ");
    reveal_strlit("viewBox=\"0 0 ");
    reveal_strlit(" 368\"");
    reveal_strlit(
        " 368\" role=\"img\" aria-label=\"Annual savings and payback period by battery size\" preserveAspectRatio=\"xMidYMid meet\">",
    );
    reveal_strlit("</g><g class=\"axis\"><line x1=\"62.0\" y1=\"326.0\" x2=\"");
    reveal_strlit("y1=\"326.0\" x2=\"");
    let chart = chart_text(sweep);
    let n = sweep.sizes@.len();
    let right = 62 + 30 * n;
    let view = "viewBox=\"0 0 "@ + text::decimal(right + 14) + " 368\""@;
    assert(chart.subrange(25, 25 + view.len() as int) =~= view);
    let open = "<svg class=\"sweep-chart\" viewBox=\"0 0 "@ + text::decimal(76 + 30 * n)
        + " 368\" role=\"img\" aria-label=\"Annual savings and payback period by battery size\" preserveAspectRatio=\"xMidYMid meet\">"@
        + panel_text(sweep.savings_ticks@, n, "20.0"@, "saved per year"@) + panel_text(
        sweep.payback_ticks@,
        n,
        "190.0"@,
        "years to pay back"@,
    ) + "<g class=\"series\">"@;
    let bars = sizes_text(sweep.sizes@, sweep.best, n);
    let a = open.len() as int;
    assert(chart.subrange(a, a + bars.len()) =~= bars);
    assert(text::matches_at(chart, bars, a));
    let axis = "y1=\"326.0\" x2=\""@ + text::decimal(right) + ".0\" y2=\"326.0\"/>"@;
    let b = a + bars.len() + 36;
    assert(chart.subrange(b, b + axis.len()) =~= axis);
    assert(text::matches_at(chart, axis, b));
}

} // verus!
