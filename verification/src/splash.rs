//! The splash shown when the program starts.
use crate::text_util::{str_chars, string_from_chars};
use vstd::prelude::*;

verus! {

/// The text of the splash before the version.
pub open spec fn splash_head() -> Seq<char> {
    "\n  ┌─┐┬─┐┌─┐┌─┐┌─┐┌┐┌┌┬┐┌─┐┬─┐┌┬┐\n  ├─┘├┬┘├┤ └─┐├┤ │││ │ ├┤ ├┬┘│││\n  ┴  ┴└─└─┘└─┘└─┘┘└┘ ┴ └─┘┴└─┴ ┴ v"@
}

/// The text of the splash after the version.
pub open spec fn splash_tail() -> Seq<char> {
    "\n    A terminal slideshow tool \n                    @mfontanini/presenterm\n"@
}

/// The splash: the logo, the version, and what the tool is.
pub open spec fn splash_text(version: Seq<char>) -> Seq<char> {
    splash_head() + version + splash_tail()
}

/// The splash for the given version, without colors.
pub fn show_splashes(version: &str) -> (s: String)
    ensures
        s@ == splash_text(version@),
{
    let head = str_chars("\n  ┌─┐┬─┐┌─┐┌─┐┌─┐┌┐┌┌┬┐┌─┐┬─┐┌┬┐\n  ├─┘├┬┘├┤ └─┐├┤ │││ │ ├┤ ├┬┘│││\n  ┴  ┴└─└─┘└─┘└─┘┘└┘ ┴ └─┘┴└─┴ ┴ v");
    let middle = str_chars(version);
    let tail = str_chars("\n    A terminal slideshow tool \n                    @mfontanini/presenterm\n");
    let mut all: Vec<char> = head;
    let ghost h = all@;
    let mut i: usize = 0;
    while i < middle.len()
        invariant
            i <= middle@.len(),
            all@ == h + middle@.take(i as int),
        decreases middle@.len() - i,
    {
        all.push(middle[i]);
        i += 1;
        assert(all@ =~= h + middle@.take(i as int));
    }
    assert(middle@.take(middle@.len() as int) =~= middle@);
    let ghost hm = all@;
    let mut j: usize = 0;
    while j < tail.len()
        invariant
            j <= tail@.len(),
            all@ == hm + tail@.take(j as int),
        decreases tail@.len() - j,
    {
        all.push(tail[j]);
        j += 1;
        assert(all@ =~= hm + tail@.take(j as int));
    }
    assert(tail@.take(tail@.len() as int) =~= tail@);
    string_from_chars(all.as_slice())
}

} // verus!
