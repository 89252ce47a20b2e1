//! The place that downloads are written to unless the user picks another:
//! the choice among the directories that the machine offers.

use vstd::prelude::*;
use vstd::string::StringExecFns;
use crate::download_options::text_of;

verus! {

/// The download directory where there is one, else the home directory
/// where there is one, else the root.
pub open spec fn default_dir(download: Option<Seq<char>>, home: Option<Seq<char>>) -> Seq<char> {
    match download {
        Some(dir) => dir,
        None => match home {
            Some(dir) => dir,
            None => "/"@,
        },
    }
}

/// The place to write to, given the user's download directory and home
/// directory as far as they exist.
pub fn choose_default_dir(download: Option<String>, home: Option<String>) -> (dir: String)
    ensures
        dir@ == default_dir(text_of(download), text_of(home)),
{
    match download {
        Some(dir) => dir,
        None => match home {
            Some(dir) => dir,
            None => String::from_str("/"),
        },
    }
}

} // verus!
