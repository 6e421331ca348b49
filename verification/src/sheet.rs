//! Text pieces of the plan-&-profile SVG sheet: markup escaping of user text and
//! the placeholder sheet drawn when there is nothing to plot.
//!
//! The sheet's geometry (scales, axes, sagged conductors) is floating-point work
//! and is drawn by the application.
use vstd::prelude::*;
use crate::text::{push_char, string_of};

verus! {

/// The escaped form of one character: `&`, `<` and `>` become entities.
pub open spec fn escape_char(c: char) -> Seq<char> {
    if c == '&' {
        "&amp;"@
    } else if c == '<' {
        "&lt;"@
    } else if c == '>' {
        "&gt;"@
    } else {
        seq![c]
    }
}

/// The text with every character escaped for XML character data.
pub open spec fn escaped(s: Seq<char>) -> Seq<char>
    decreases s.len(),
{
    if s.len() == 0 {
        Seq::empty()
    } else {
        escaped(s.drop_last()) + escape_char(s.last())
    }
}

/// Escapes `&`, `<` and `>` for inclusion in SVG text (applied in that order, so an
/// entity's own `&` is not escaped again).
pub fn escape(s: &str) -> (r: String)
    ensures
        r@ == escaped(s@),
{
    let mut out = String::new();
    let n = s.unicode_len();
    let mut i: usize = 0;
    while i < n
        invariant
            n == s@.len(),
            i <= n,
            out@ == escaped(s@.take(i as int)),
        decreases n - i,
    {
        let c = s.get_char(i);
        if c == '&' {
            out.append("&amp;");
        } else if c == '<' {
            out.append("&lt;");
        } else if c == '>' {
            out.append("&gt;");
        } else {
            push_char(&mut out, c);
        }
        i = i + 1;
        assert(s@.take(i as int).drop_last() =~= s@.take(i - 1));
    }
    assert(s@.take(n as int) =~= s@);
    out
}

/// Markup of the placeholder sheet before the (escaped) project name.
pub const PLACEHOLDER_HEAD: &'static str = "<svg xmlns='http://www.w3.org/2000/svg' width='1100' height='200' viewBox='0 0 1100 200' font-family='sans-serif'><rect width='1100' height='200' fill='#ffffff'/><text x='70' y='40' font-size='18' font-weight='bold'>";

/// Markup of the placeholder sheet after the project name.
pub const PLACEHOLDER_TAIL: &'static str = "</text><text x='70' y='70' font-size='12' fill='#777'>Nothing to draw \u{2014} spot towers and load terrain first.</text></svg>";

/// A minimal valid sheet for a project with nothing to draw: the escaped project
/// name as the title, and a hint to spot towers and load terrain.
pub fn placeholder_svg(name: &str) -> (r: String)
    ensures
        r@ == PLACEHOLDER_HEAD@ + escaped(name@) + PLACEHOLDER_TAIL@,
{
    let mut s = string_of(PLACEHOLDER_HEAD);
    let e = escape(name);
    s.append(e.as_str());
    s.append(PLACEHOLDER_TAIL);
    s
}

} // verus!

verus! {

/// Text without `&`, `<` or `>` comes out of [`escape`] unchanged.
pub proof fn law_escape_keeps_plain_text(s: Seq<char>)
    requires
        forall|i: int| 0 <= i < s.len() ==> #[trigger] s[i] != '&' && s[i] != '<' && s[i] != '>',
    ensures
        escaped(s) == s,
    decreases s.len(),
{
    if s.len() > 0 {
        let p = s.drop_last();
        law_escape_keeps_plain_text(p);
        assert(s.last() == s[s.len() - 1]);
        assert(escaped(s) =~= s);
    }
}

/// Escaped text holds no `<` or `>`: user text cannot open or close markup.
pub proof fn law_escaped_has_no_angle_brackets(s: Seq<char>)
    ensures
        forall|i: int| 0 <= i < escaped(s).len() ==> #[trigger] escaped(s)[i] != '<' && escaped(s)[i] != '>',
    decreases s.len(),
{
    reveal_strlit("&amp;");
    reveal_strlit("&lt;");
    reveal_strlit("&gt;");
    if s.len() > 0 {
        let p = s.drop_last();
        law_escaped_has_no_angle_brackets(p);
        let e = escaped(s);
        let ep = escaped(p);
        let tail = escape_char(s.last());
        assert(e == ep + tail);
        assert forall|i: int| 0 <= i < e.len() implies #[trigger] e[i] != '<' && e[i] != '>' by {
            if i < ep.len() {
                assert(e[i] == ep[i]);
            } else {
                assert(e[i] == tail[i - ep.len()]);
            }
        }
    }
}

} // verus!
