//! The pages of the benchmarked application, as plain values: which page a
//! path leads to, and what each page shows. A backend turns these into
//! its own elements.

#![allow(non_snake_case)]

use vstd::prelude::*;
use vstd::string::StringExecFns;
use leptos_router::{PossibleRouteMatch, StaticSegment};
use crate::text::{append_decimal, decimal};
use crate::workload::{
    generate_sequential_rows,
    generate_spiral_tiles,
    is_spiral_outcome,
    sequential_rows,
    ConfigError,
    Direction,
    Row,
    SpiralParams,
    Tile,
};

verus! {

/// A page of the application.
#[derive(Clone, Copy, Debug, PartialEq, Eq, Structural)]
pub enum Page {
    Home,
    SsrPerformanceShowdown,
    Ssr,
    /// What any other path leads to.
    NotFound,
}

/// A link on the home page.
#[derive(Debug)]
pub struct Link {
    pub href: String,
    pub label: String,
}

/// What the page with the counter shows.
#[derive(Debug)]
pub struct HomeView {
    pub heading: String,
    pub button: String,
}

/// Rows of the list page.
pub const LIST_ROWS: i64 = 50;

/// Value of every row of the list page.
pub const LIST_FILL: u32 = 1;

/// Path segment of the home page.
pub const HOME_SEGMENT: &'static str = "";

/// Path segment of the showdown page.
pub const SHOWDOWN_SEGMENT: &'static str = "ssr-performance-showdown";

/// Path segment of the list page.
pub const SSR_SEGMENT: &'static str = "ssr";

/// What `leptos_router` leaves of `path` once it has matched the static
/// segment `segment` at its start, or `None` where the segment does not
/// match.
pub uninterp spec fn static_segment_remainder(segment: Seq<char>, path: Seq<char>) -> Option<
    Seq<char>,
>;

/// `leptos_router::StaticSegment::test`, and of its match the part of the
/// path that was left over. Nothing is proved of it; the claim is only
/// that the result is a function of segment and path.
#[verifier::external_body]
fn match_segment(segment: &'static str, path: &str) -> (remainder: Option<String>)
    ensures
        match remainder {
            Some(rest) => static_segment_remainder(segment@, path@) == Some(rest@),
            None => static_segment_remainder(segment@, path@) is None,
        },
{
    StaticSegment(segment).test(path).map(|matched| matched.remaining().to_string())
}

/// Whether a match is of the whole path: nothing is left over, or a
/// closing slash.
pub open spec fn is_whole(remainder: Option<Seq<char>>) -> bool {
    remainder matches Some(rest) && (rest == ""@ || rest == "/"@)
}

/// The page for the matches of the three segments: the first whose match
/// is of the whole path, in the order home, showdown, list.
pub open spec fn chosen(
    home: Option<Seq<char>>,
    showdown: Option<Seq<char>>,
    ssr: Option<Seq<char>>,
) -> Page {
    if is_whole(home) {
        Page::Home
    } else if is_whole(showdown) {
        Page::SsrPerformanceShowdown
    } else if is_whole(ssr) {
        Page::Ssr
    } else {
        Page::NotFound
    }
}

/// The page that a path leads to.
pub open spec fn route(path: Seq<char>) -> Page {
    chosen(
        static_segment_remainder(HOME_SEGMENT@, path),
        static_segment_remainder(SHOWDOWN_SEGMENT@, path),
        static_segment_remainder(SSR_SEGMENT@, path),
    )
}

/// The left-over of a match, as characters.
pub open spec fn remainder_view(remainder: Option<String>) -> Option<Seq<char>> {
    match remainder {
        Some(rest) => Some(rest@),
        None => None,
    }
}

/// The spiral of the showdown page: a canvas of 960 by 720 with cells of
/// 10, turning by 0.2 and growing by 0.015 of a cell per step.
pub open spec fn showdown() -> SpiralParams {
    SpiralParams {
        canvas_width: 960_000_000,
        canvas_height: 720_000_000,
        cell_size: 10_000_000,
        angle_step: 200_000,
        radius_step_factor: 15_000,
    }
}

/// The spiral of the showdown page is accepted and takes 2400 steps.
pub proof fn lemma_showdown_steps()
    ensures
        showdown().config_error() is None,
        showdown().radius_step() == 150_000,
        showdown().step_count() == 2400,
{
    assert(10_000_000int * 15_000int == 150_000_000_000int);
    assert(showdown().radius_step() == 150_000);
    assert(showdown().short_side() == 720_000_000);
    assert((720_000_000int + 300_000int - 1) / 300_000int == 2400);
}

/// Computes [`showdown`].
pub fn showdown_params() -> (params: SpiralParams)
    ensures
        params == showdown(),
{
    SpiralParams {
        canvas_width: 960_000_000,
        canvas_height: 720_000_000,
        cell_size: 10_000_000,
        angle_step: 200_000,
        radius_step_factor: 15_000,
    }
}

/// Whether two texts are the same.
fn same_text(a: &str, b: &str) -> (same: bool)
    ensures
        same == (a@ == b@),
{
    String::from_str(a) == String::from_str(b)
}

/// Computes [`is_whole`].
fn whole(remainder: &Option<String>) -> (whole: bool)
    ensures
        whole == is_whole(remainder_view(*remainder)),
{
    match remainder {
        Some(rest) => same_text(rest.as_str(), "") || same_text(rest.as_str(), "/"),
        None => false,
    }
}

/// Picks the page for the matches of the three segments against one
/// path.
pub fn choose_page(home: &Option<String>, showdown: &Option<String>, ssr: &Option<String>) -> (page:
    Page)
    ensures
        page == chosen(remainder_view(*home), remainder_view(*showdown), remainder_view(*ssr)),
{
    if whole(home) {
        Page::Home
    } else if whole(showdown) {
        Page::SsrPerformanceShowdown
    } else if whole(ssr) {
        Page::Ssr
    } else {
        Page::NotFound
    }
}

/// The application: finds the page for a path, matching as the router
/// does.
pub fn App(path: &str) -> (page: Page)
    ensures
        page == route(path@),
{
    let home = match_segment(HOME_SEGMENT, path);
    let showdown = match_segment(SHOWDOWN_SEGMENT, path);
    let ssr = match_segment(SSR_SEGMENT, path);
    choose_page(&home, &showdown, &ssr)
}

/// The home page: a link to each benchmark page, the showdown first.
pub fn Home() -> (links: Vec<Link>)
    ensures
        links@.len() == 2,
        links@[0].href@ == "/ssr-performance-showdown"@,
        links@[0].label@ == "SSR Performance Showdown"@,
        links@[1].href@ == "/ssr"@,
        links@[1].label@ == "SSR"@,
{
    let mut links: Vec<Link> = Vec::new();
    links.push(
        Link {
            href: String::from_str("/ssr-performance-showdown"),
            label: String::from_str("SSR Performance Showdown"),
        },
    );
    links.push(Link { href: String::from_str("/ssr"), label: String::from_str("SSR") });
    links
}

/// The page with the counter, after `clicks` clicks.
pub fn HomePage(clicks: u64) -> (view: HomeView)
    ensures
        view.heading@ == "Welcome to Leptos!"@,
        view.button@ == "Click Me: "@ + decimal(clicks as nat),
{
    let mut button = String::from_str("Click Me: ");
    append_decimal(&mut button, clicks);
    HomeView { heading: String::from_str("Welcome to Leptos!"), button }
}

/// The rows of the list page.
fn list_rows() -> (rows: Vec<Row>)
    ensures
        rows@ == sequential_rows(LIST_ROWS as nat, LIST_FILL),
{
    match generate_sequential_rows(LIST_ROWS, LIST_FILL) {
        Ok(rows) => rows,
        Err(_) => Vec::new(),
    }
}

/// The list page: 50 rows of the value 1.
pub fn Ssr() -> (rows: Vec<Row>)
    ensures
        rows@ == sequential_rows(LIST_ROWS as nat, LIST_FILL),
{
    list_rows()
}

/// The list page, as the second backend serves it: the same rows.
pub fn SsrPage() -> (rows: Vec<Row>)
    ensures
        rows@ == sequential_rows(LIST_ROWS as nat, LIST_FILL),
{
    list_rows()
}

/// The showdown page: the tiles of the spiral [`showdown`], for the
/// directions of its 2400 steps.
pub fn SsrPerformanceShowdown(directions: &Vec<Direction>) -> (result: Result<
    Vec<Tile>,
    ConfigError,
>)
    ensures
        is_spiral_outcome(showdown(), directions@, result),
        result is Ok <==> directions@.len() == 2400,
        result is Err ==> result->Err_0 == ConfigError::DirectionCount,
{
    proof {
        lemma_showdown_steps();
    }
    generate_spiral_tiles(&showdown_params(), directions)
}

} // verus!
