//! Wrapping style sheets and scripts into the tags of the window's page.
use vstd::prelude::*;

verus! {

/// `s` inside a `style` tag of type `text/css`.
pub open spec fn style_tag(s: Seq<char>) -> Seq<char> {
    "<style type=\"text/css\">"@ + s + "</style>"@
}

/// `s` inside a `script` tag of type `text/javascript`.
pub open spec fn script_tag(s: Seq<char>) -> Seq<char> {
    "<script type=\"text/javascript\">"@ + s + "</script>"@
}

/// A style sheet, ready to stand in the page (see `style_tag`).
pub fn inline_style(s: &str) -> (r: String)
    ensures
        r@ == style_tag(s@),
{
    let mut r = String::new();
    r.append("<style type=\"text/css\">");
    r.append(s);
    r.append("</style>");
    assert(r@ =~= style_tag(s@));
    r
}

/// A script, ready to stand in the page (see `script_tag`).
pub fn inline_script(s: &str) -> (r: String)
    ensures
        r@ == script_tag(s@),
{
    let mut r = String::new();
    r.append("<script type=\"text/javascript\">");
    r.append(s);
    r.append("</script>");
    assert(r@ =~= script_tag(s@));
    r
}

} // verus!
