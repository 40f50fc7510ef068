//! Two sample pages.

use vstd::prelude::*;
use crate::html::HTML;

verus! {

/// The text of the front page.
pub const INDEX_PAGE: &'static str = "<h1>Hello World!</h1>";

/// The text of the about page, laid out over several lines.
pub const ABOUT_PAGE: &'static str =
    "<h1>Welcome to the About Page!</h1> \n\n\n    \n    <input type='text'>";

/// The front page.
pub fn index() -> (page: HTML)
    ensures
        page@ == INDEX_PAGE@,
{
    INDEX_PAGE.to_owned()
}

/// The about page.
pub fn about() -> (page: HTML)
    ensures
        page@ == ABOUT_PAGE@,
{
    ABOUT_PAGE.to_owned()
}

} // verus!
