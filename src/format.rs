//! The output formats there are. Writing a response in one of them happens
//! outside the library.
use crate::text::{lower_of, lowercase, same_text};
use vstd::prelude::*;

verus! {

/// An output format's name and description.
#[derive(Clone, Debug)]
pub struct FormatInfo {
    pub name: String,
    pub description: String,
}

/// The full response as JSON.
#[derive(Clone, Copy, Debug)]
pub struct JsonFormatter;

/// A human-readable summary.
#[derive(Clone, Copy, Debug)]
pub struct TextFormatter;

/// A GPX file of waypoints.
#[derive(Clone, Copy, Debug)]
pub struct GpxFormatter;

/// A map link for one anomaly kind.
#[derive(Clone, Copy, Debug)]
pub struct UrlFormatter;

impl JsonFormatter {
    pub fn name(&self) -> (s: &'static str)
        ensures
            s@ == "json"@,
    {
        "json"
    }

    pub fn description(&self) -> (s: &'static str)
        ensures
            s@ == "Full JSON response"@,
    {
        "Full JSON response"
    }
}

impl TextFormatter {
    pub fn name(&self) -> (s: &'static str)
        ensures
            s@ == "text"@,
    {
        "text"
    }

    pub fn description(&self) -> (s: &'static str)
        ensures
            s@ == "Human-readable text"@,
    {
        "Human-readable text"
    }
}

impl GpxFormatter {
    pub fn name(&self) -> (s: &'static str)
        ensures
            s@ == "gpx"@,
    {
        "gpx"
    }

    pub fn description(&self) -> (s: &'static str)
        ensures
            s@ == "GPX waypoint file"@,
    {
        "GPX waypoint file"
    }
}

impl UrlFormatter {
    pub fn name(&self) -> (s: &'static str)
        ensures
            s@ == "url"@,
    {
        "url"
    }

    pub fn description(&self) -> (s: &'static str)
        ensures
            s@ == "Map URL for selected type"@,
    {
        "Map URL for selected type"
    }
}

fn format_info(name: &str, description: &str) -> (f: FormatInfo)
    ensures
        f.name@ == name@,
        f.description@ == description@,
{
    FormatInfo { name: String::from_str(name), description: String::from_str(description) }
}

/// The output formats, in a fixed order.
pub fn available_formats() -> (v: Vec<FormatInfo>)
    ensures
        v@.len() == 4,
        v@[0].name@ == "json"@ && v@[0].description@ == "Full JSON response"@,
        v@[1].name@ == "text"@ && v@[1].description@ == "Human-readable text"@,
        v@[2].name@ == "gpx"@ && v@[2].description@ == "GPX waypoint file"@,
        v@[3].name@ == "url"@ && v@[3].description@ == "Map URL for selected type"@,
{
    let mut v: Vec<FormatInfo> = Vec::new();
    v.push(format_info("json", "Full JSON response"));
    v.push(format_info("text", "Human-readable text"));
    v.push(format_info("gpx", "GPX waypoint file"));
    v.push(format_info("url", "Map URL for selected type"));
    v
}

/// One of the output formats.
#[derive(Clone, Copy, Debug)]
pub enum Formatter {
    Json(JsonFormatter),
    Text(TextFormatter),
    Gpx(GpxFormatter),
    Url(UrlFormatter),
}

/// `f` is the format that the lowercase name `t` names, if any.
pub open spec fn names_formatter(t: Seq<char>, f: Option<Formatter>) -> bool {
    if t == "json"@ {
        f matches Some(Formatter::Json(_))
    } else if t == "text"@ {
        f matches Some(Formatter::Text(_))
    } else if t == "gpx"@ {
        f matches Some(Formatter::Gpx(_))
    } else if t == "url"@ {
        f matches Some(Formatter::Url(_))
    } else {
        f is None
    }
}

/// The format a lowercase name names.
pub fn formatter_for_lowercase_name(t: &str) -> (f: Option<Formatter>)
    ensures
        names_formatter(t@, f),
{
    if same_text(t, "json") {
        Some(Formatter::Json(JsonFormatter))
    } else if same_text(t, "text") {
        Some(Formatter::Text(TextFormatter))
    } else if same_text(t, "gpx") {
        Some(Formatter::Gpx(GpxFormatter))
    } else if same_text(t, "url") {
        Some(Formatter::Url(UrlFormatter))
    } else {
        None
    }
}

/// The format a name names, ignoring case.
pub fn get_formatter(name: &str) -> (f: Option<Formatter>)
    ensures
        names_formatter(lower_of(name@), f),
{
    let lower = lowercase(name);
    formatter_for_lowercase_name(lower.as_str())
}

} // verus!
