//! What the plots show besides their data: the kind of metrics drawn in the
//! corner, and the layout of the fonts they are drawn with.

use vstd::prelude::*;

verus! {

/// What kind of metrics to draw on a plot.
#[derive(Debug, Clone, Copy, PartialEq, Eq, Structural, Hash)]
pub enum MetricsKind {
    Off,
    Basic,
    Advanced,
}

/// The number of metric lines drawn for a kind: none, the basic two (range,
/// and last value with average and count), or three with the spread.
pub open spec fn metric_line_count(kind: MetricsKind) -> nat {
    match kind {
        MetricsKind::Off => 0,
        MetricsKind::Basic => 2,
        MetricsKind::Advanced => 3,
    }
}

impl MetricsKind {
    /// How many lines of metrics are drawn.
    pub fn line_count(&self) -> (r: usize)
        ensures
            r == metric_line_count(*self),
    {
        match self {
            MetricsKind::Off => 0,
            MetricsKind::Basic => 2,
            MetricsKind::Advanced => 3,
        }
    }

    /// Whether any metrics are drawn.
    pub fn is_shown(&self) -> (r: bool)
        ensures
            r == (*self != MetricsKind::Off),
    {
        !matches!(self, MetricsKind::Off)
    }
}

/// The fonts of the plots and the sizes they are drawn at.
#[derive(Debug, Clone)]
pub struct PlottersFontLayout {
    pub font_metrics_name: String,
    pub font_sans_serif_name: String,
    pub font_metrics_size: u32,
    pub font_sans_serif_size: u32,
    pub font_metrics_line_height: u32,
    pub font_metrics_margin: i32,
    pub font_sans_serif_y_label_area_size: i32,
}

/// The layout the plots use, once their fonts are registered: the metrics in
/// a tall pixel font at 16 px on 16 px lines with an 8 px margin, the axes in
/// the default sans-serif font at 15 px with a 45 px label area.
pub open spec fn is_plot_layout(f: PlottersFontLayout) -> bool {
    &&& f.font_metrics_name@ == "plotters-metrics"@
    &&& f.font_sans_serif_name@ == "sans-serif"@
    &&& f.font_metrics_size == 16
    &&& f.font_sans_serif_size == 15
    &&& f.font_metrics_line_height == 16
    &&& f.font_metrics_margin == 8
    &&& f.font_sans_serif_y_label_area_size == 45
}

/// Whether registering the plot fonts is known yet, and how it went. It is
/// done once for the process, by the first load.
pub struct FontCache {
    registration: Option<Result<(), String>>,
}

/// A registration outcome, with its error as text.
pub open spec fn outcome_view(o: Result<(), String>) -> Result<(), Seq<char>> {
    match o {
        Ok(()) => Ok(()),
        Err(e) => Err(e@),
    }
}

impl FontCache {
    /// How registering the fonts went, once it was done.
    pub closed spec fn registered(self) -> Option<Result<(), Seq<char>>> {
        match self.registration {
            Some(o) => Some(outcome_view(o)),
            None => None,
        }
    }

    /// The cache before any load: the fonts are not registered yet.
    pub fn new() -> (r: FontCache)
        ensures
            r.registered() is None,
    {
        FontCache { registration: None }
    }

    /// The fonts still need registering: no load happened yet.
    pub fn needs_registration(&self) -> (r: bool)
        ensures
            r == (self.registered() is None),
    {
        self.registration.is_none()
    }
}

/// The answer of a load, given how registering the fonts went: on success
/// the layout, otherwise the registration's error.
pub open spec fn font_result(reg: Result<(), Seq<char>>, r: Result<PlottersFontLayout, String>) -> bool {
    match reg {
        Ok(()) => r is Ok && is_plot_layout(r->Ok_0),
        Err(e) => r is Err && r->Err_0@ == e,
    }
}

/// One load of the font layout: a registration outcome is handed in exactly
/// when the fonts were not registered yet, and is kept; the answer follows
/// the kept outcome.
pub open spec fn load_step(
    before: FontCache,
    registration: Option<Result<(), String>>,
    after: FontCache,
    r: Result<PlottersFontLayout, String>,
) -> bool {
    &&& (registration is Some <==> before.registered() is None)
    &&& after.registered() == match before.registered() {
        Some(o) => Some(o),
        None => Some(outcome_view(registration->0)),
    }
    &&& font_result(after.registered()->0, r)
}

/// Loads the font layout of the plots. The first load hands in how
/// registering the two fonts went (`registration`), later loads hand in
/// nothing and get the cached answer.
pub fn load_cached_font(cache: &mut FontCache, registration: Option<Result<(), String>>) -> (r: Result<
    PlottersFontLayout,
    String,
>)
    requires
        registration is Some <==> old(cache).registered() is None,
    ensures
        load_step(*old(cache), registration, *final(cache), r),
{
    if cache.registration.is_none() {
        cache.registration = registration;
    }
    match &cache.registration {
        Some(Ok(())) => Ok(
            PlottersFontLayout {
                font_metrics_name: String::from_str("plotters-metrics"),
                font_sans_serif_name: String::from_str("sans-serif"),
                font_metrics_size: 16,
                font_sans_serif_size: 15,
                font_metrics_line_height: 16,
                font_metrics_margin: 8,
                font_sans_serif_y_label_area_size: 45,
            },
        ),
        Some(Err(e)) => Err(e.clone()),
        None => Err(String::new()),
    }
}

/// Two answers that agree: both the layout, or both the same error.
pub open spec fn same_font_result(a: Result<PlottersFontLayout, String>, b: Result<PlottersFontLayout, String>) -> bool {
    &&& (a is Ok <==> b is Ok)
    &&& a is Ok ==> is_plot_layout(a->Ok_0) && is_plot_layout(b->Ok_0)
    &&& a is Err ==> a->Err_0@ == b->Err_0@
}

/// The fonts are registered by the first load only: a second load takes no
/// registration, leaves the cache as it was, and gives the same answer (the
/// same layout, field for field, or the same error).
pub proof fn lemma_font_loaded_once(
    c0: FontCache,
    c1: FontCache,
    c2: FontCache,
    o1: Option<Result<(), String>>,
    o2: Option<Result<(), String>>,
    r1: Result<PlottersFontLayout, String>,
    r2: Result<PlottersFontLayout, String>,
)
    requires
        c0.registered() is None,
        load_step(c0, o1, c1, r1),
        load_step(c1, o2, c2, r2),
    ensures
        o1 is Some,
        o2 is None,
        c2.registered() == c1.registered(),
        same_font_result(r1, r2),
{
}

/// Where the `line`-th metrics line is anchored (by its top-right corner) on
/// a plot `width` pixels wide: `margin` from the right edge, one line height
/// further down per line.
pub fn metrics_text_anchor(font: &PlottersFontLayout, width: u32, line: u32) -> (r: (i32, i32))
    requires
        width <= i32::MAX,
        i32::MIN <= width - font.font_metrics_margin <= i32::MAX,
        i32::MIN <= font.font_metrics_margin + font.font_metrics_line_height * line <= i32::MAX,
        font.font_metrics_line_height <= i32::MAX,
        line <= i32::MAX,
        font.font_metrics_line_height * line <= i32::MAX,
    ensures
        r.0 == width - font.font_metrics_margin,
        r.1 == font.font_metrics_margin + font.font_metrics_line_height * line,
{
    let w = width as i32;
    let h = font.font_metrics_line_height as i32;
    let l = line as i32;
    assert(0 <= h * l <= i32::MAX) by (nonlinear_arith)
        requires
            h == font.font_metrics_line_height,
            l == line,
            font.font_metrics_line_height * line <= i32::MAX,
            h >= 0,
            l >= 0,
    ;
    (w - font.font_metrics_margin, font.font_metrics_margin + h * l)
}

} // verus!
