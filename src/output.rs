//! Where the built page is written.
use vstd::prelude::*;
use crate::model::{Build, IndexData};
use crate::text::{is_blank, is_blank_spec};

verus! {

/// The directory the page is written to: the configured one where it is not
/// blank, else `docs`.
pub open spec fn output_dir_of(b: Option<Build>) -> Seq<char> {
    match b {
        Some(b) => match b.output_dir {
            Some(d) => if is_blank_spec(d@) {
                "docs"@
            } else {
                d@
            },
            None => "docs"@,
        },
        None => "docs"@,
    }
}

/// The file name of the page: the configured one where it is not blank, else
/// `index.html`.
pub open spec fn output_file_of(b: Option<Build>) -> Seq<char> {
    match b {
        Some(b) => match b.output_file {
            Some(f) => if is_blank_spec(f@) {
                "index.html"@
            } else {
                f@
            },
            None => "index.html"@,
        },
        None => "index.html"@,
    }
}

/// Where the page of `data` is written: its directory and file name.
pub fn resolve_build_output(data: &IndexData) -> (r: (String, String))
    ensures
        r.0@ == output_dir_of(data.config.build),
        r.1@ == output_file_of(data.config.build),
{
    let mut output_dir = String::from_str("docs");
    let mut output_file = String::from_str("index.html");
    if let Some(build) = &data.config.build {
        if let Some(dir) = &build.output_dir {
            if !is_blank(dir.as_str()) {
                output_dir = dir.clone();
            }
        }
        if let Some(file) = &build.output_file {
            if !is_blank(file.as_str()) {
                output_file = file.clone();
            }
        }
    }
    (output_dir, output_file)
}

} // verus!
