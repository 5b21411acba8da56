//! How an export of SVG pages to one PDF proceeds, by the number of pages.
use vstd::prelude::*;
use crate::text::string_of;

verus! {

/// How a PDF is made of the pages: one page is converted on its own, several pages are
/// gathered into one document with a page tree.
#[derive(Clone, Copy, Debug, PartialEq, Eq, Structural)]
pub enum PagePlan {
    Single,
    Multi,
}

/// The message of an export with no page: "there are no pages".
pub open spec fn no_pages_message() -> Seq<char> {
    "페이지가 없습니다"@
}

/// The plan for `n` pages: an error for none, `Single` for one, `Multi` for more.
pub fn pdf_page_plan(n: usize) -> (r: Result<PagePlan, String>)
    ensures
        n == 0 ==> (r matches Err(m) && m@ == no_pages_message()),
        n == 1 ==> r == Ok::<PagePlan, String>(PagePlan::Single),
        n >= 2 ==> r == Ok::<PagePlan, String>(PagePlan::Multi),
{
    if n == 0 {
        Err(string_of("페이지가 없습니다"))
    } else if n == 1 {
        Ok(PagePlan::Single)
    } else {
        Ok(PagePlan::Multi)
    }
}

} // verus!
