//! Rendering: turning one extracted recipe into a self-contained LaTeX
//! fragment, and deriving the filename under which the recipe's image is
//! saved.
//!
//! Rendering never fails: empty lists render as empty list bodies, and the
//! whole side-dish block is omitted when the recipe has no side title.

use vstd::prelude::*;

use crate::recipe::Recipe;

verus! {

/// The characters of `s` after its last `/`; the whole of `s` when it has
/// no `/`; empty when `s` ends in `/` or is empty.
pub open spec fn after_last_slash(s: Seq<char>) -> Seq<char>
    decreases s.len(),
{
    if s.len() == 0 {
        Seq::empty()
    } else if s.last() == '/' {
        Seq::empty()
    } else {
        after_last_slash(s.drop_last()).push(s.last())
    }
}

/// The filename under which an image URL is saved: its final path segment,
/// or `None` when no non-empty segment follows the last `/`.
pub open spec fn spec_image_filename(s: Seq<char>) -> Option<Seq<char>> {
    if after_last_slash(s).len() == 0 {
        None
    } else {
        Some(after_last_slash(s))
    }
}

proof fn lemma_after_last_slash_suffix(s: Seq<char>, k: int)
    requires
        0 <= k <= s.len(),
        forall|j: int| k <= j < s.len() ==> s[j] != '/',
        k > 0 ==> s[k - 1] == '/',
    ensures
        after_last_slash(s) == s.subrange(k, s.len() as int),
    decreases s.len(),
{
    if s.len() == k {
        assert(s.subrange(k, s.len() as int) =~= Seq::<char>::empty());
        if k > 0 {
            assert(s.last() == s[k - 1]);
        }
    } else {
        assert(s.last() == s[s.len() - 1]);
        lemma_after_last_slash_suffix(s.drop_last(), k);
        assert(s.drop_last().subrange(k, s.len() - 1).push(s.last()) =~= s.subrange(
            k,
            s.len() as int,
        ));
    }
}

/// Derive the saved-image filename from an image URL: the final path
/// segment, or `None` when the URL ends in `/` (or is empty), in which
/// case the image is skipped and only a warning is due.
pub fn image_filename(url: &String) -> (r: Option<String>)
    ensures
        r.deep_view() == spec_image_filename(url@),
{
    let s = url.as_str();
    let n = s.unicode_len();
    let mut cut: usize = n;
    let mut found = false;
    while cut > 0 && !found
        invariant
            cut <= n,
            n == s@.len(),
            forall|j: int| cut <= j < n ==> s@[j] != '/',
            found ==> cut > 0 && s@[cut - 1] == '/',
        decreases (if found {
            0int
        } else {
            cut + 1
        }),
    {
        if s.get_char(cut - 1) == '/' {
            found = true;
        } else {
            cut = cut - 1;
        }
    }
    proof {
        lemma_after_last_slash_suffix(s@, cut as int);
    }
    if cut == n {
        None
    } else {
        Some(s.substring_char(cut, n).to_owned())
    }
}

/// The image directive at the head of a fragment: present exactly when the
/// recipe has an image URL with a derivable filename.
pub open spec fn image_part(image_url: Option<Seq<char>>) -> Seq<char> {
    match image_url {
        None => Seq::empty(),
        Some(u) => match spec_image_filename(u) {
            None => Seq::empty(),
            Some(f) => "\\begin{center}\\includegraphics[height=3in]{"@ + f
                + "}\\end{center}\n\n"@,
        },
    }
}

/// The main title heading block.
pub open spec fn title_part(title: Seq<char>) -> Seq<char> {
    "{\\noindent\\Large "@ + title + "}\n\n\\medskip\n"@
}

/// The side-title heading block: empty when the recipe has no side title.
pub open spec fn side_title_part(side_title: Option<Seq<char>>) -> Seq<char> {
    match side_title {
        None => Seq::empty(),
        Some(x) => "{\\noindent\\large "@ + x + "}\n\n"@ + "\\medskip\n"@,
    }
}

/// The timing labels, each followed by a single space.
pub open spec fn times_join(ts: Seq<Seq<char>>) -> Seq<char>
    decreases ts.len(),
{
    if ts.len() == 0 {
        Seq::empty()
    } else {
        times_join(ts.drop_last()) + ts.last() + " "@
    }
}

/// The times block: the joined labels and the separator that follows them.
pub open spec fn times_part(ts: Seq<Seq<char>>) -> Seq<char> {
    times_join(ts) + "\n\n\\bigskip\n"@
}

/// One itemized (unnumbered) list entry.
pub open spec fn item_line(t: Seq<char>) -> Seq<char> {
    "    \\item[] "@ + t + "\n"@
}

/// The body of an itemized list, one entry per element.
pub open spec fn item_lines(items: Seq<Seq<char>>) -> Seq<char>
    decreases items.len(),
{
    if items.len() == 0 {
        Seq::empty()
    } else {
        item_lines(items.drop_last()) + item_line(items.last())
    }
}

/// One enumerated (numbered) list entry.
pub open spec fn enum_line(t: Seq<char>) -> Seq<char> {
    "    \\item "@ + t + "\n"@
}

/// The body of an enumerated list, one entry per element.
pub open spec fn enum_lines(items: Seq<Seq<char>>) -> Seq<char>
    decreases items.len(),
{
    if items.len() == 0 {
        Seq::empty()
    } else {
        enum_lines(items.drop_last()) + enum_line(items.last())
    }
}

/// The main sections: ingredient heading and list, then instruction
/// heading and list.
pub open spec fn main_part(ingredients: Seq<Seq<char>>, instructions: Seq<Seq<char>>) -> Seq<
    char,
> {
    "{\\noindent\\large Ingredients}\n\\begin{itemize}\n"@ + item_lines(ingredients)
        + "\\end{itemize}\n\\bigskip\n{\\noindent\\large Instructions}\n\\begin{enumerate}\n"@
        + enum_lines(instructions) + "\\end{enumerate}\n\\bigskip\n"@
}

/// The side-dish sections: present, with possibly empty list bodies,
/// exactly when the recipe has a side title.
pub open spec fn side_part(
    side_title: Option<Seq<char>>,
    side_ingredients: Seq<Seq<char>>,
    side_instructions: Seq<Seq<char>>,
) -> Seq<char> {
    match side_title {
        None => Seq::empty(),
        Some(x) => "{\\noindent\\large Side Dish Ingredients}\n"@ + "\\begin{itemize}\n"@
            + item_lines(side_ingredients) + "\\end{itemize}\n\\bigskip\n"@
            + "{\\noindent\\large Side Dish Instructions}\n"@ + "\\begin{enumerate}\n"@
            + enum_lines(side_instructions) + "\\end{enumerate}\n"@,
    }
}

/// The whole rendered fragment for one recipe.
pub open spec fn spec_render(rec: Recipe) -> Seq<char> {
    image_part(rec.image_url.deep_view()) + title_part(rec.title@) + side_title_part(
        rec.side_title.deep_view(),
    ) + times_part(rec.times.deep_view()) + main_part(
        rec.main_ingredients.deep_view(),
        rec.main_instructions.deep_view(),
    ) + side_part(
        rec.side_title.deep_view(),
        rec.side_ingredients.deep_view(),
        rec.side_instructions.deep_view(),
    )
}

fn push_item_lines(out: &mut String, items: &Vec<String>)
    ensures
        final(out)@ == old(out)@ + item_lines(items.deep_view()),
    decreases items@.len(),
{
    let end = items.len();
    let mut i: usize = 0;
    proof {
        assert(items.deep_view().take(0) =~= Seq::<Seq<char>>::empty());
        assert(out@ + item_lines(items.deep_view().take(0)) =~= out@);
    }
    while i < end
        invariant
            i <= end,
            end == items@.len(),
            items.deep_view().len() == items@.len(),
            out@ == old(out)@ + item_lines(items.deep_view().take(i as int)),
        decreases end - i,
    {
        out.append("    \\item[] ");
        out.append(items[i].as_str());
        out.append("\n");
        proof {
            assert(items.deep_view().take(i + 1).drop_last() =~= items.deep_view().take(i as int));
            assert(items.deep_view().take(i + 1).last() == items@[i as int]@);
            assert(out@ =~= old(out)@ + item_lines(items.deep_view().take(i + 1)));
        }
        i = i + 1;
    }
    proof {
        assert(items.deep_view().take(end as int) =~= items.deep_view());
    }
}

fn push_enum_lines(out: &mut String, items: &Vec<String>)
    ensures
        final(out)@ == old(out)@ + enum_lines(items.deep_view()),
    decreases items@.len(),
{
    let end = items.len();
    let mut i: usize = 0;
    proof {
        assert(items.deep_view().take(0) =~= Seq::<Seq<char>>::empty());
        assert(out@ + enum_lines(items.deep_view().take(0)) =~= out@);
    }
    while i < end
        invariant
            i <= end,
            end == items@.len(),
            items.deep_view().len() == items@.len(),
            out@ == old(out)@ + enum_lines(items.deep_view().take(i as int)),
        decreases end - i,
    {
        out.append("    \\item ");
        out.append(items[i].as_str());
        out.append("\n");
        proof {
            assert(items.deep_view().take(i + 1).drop_last() =~= items.deep_view().take(i as int));
            assert(items.deep_view().take(i + 1).last() == items@[i as int]@);
            assert(out@ =~= old(out)@ + enum_lines(items.deep_view().take(i + 1)));
        }
        i = i + 1;
    }
    proof {
        assert(items.deep_view().take(end as int) =~= items.deep_view());
    }
}

fn push_times(out: &mut String, times: &Vec<String>)
    ensures
        final(out)@ == old(out)@ + times_join(times.deep_view()),
    decreases times@.len(),
{
    let end = times.len();
    let mut i: usize = 0;
    proof {
        assert(times.deep_view().take(0) =~= Seq::<Seq<char>>::empty());
        assert(out@ + times_join(times.deep_view().take(0)) =~= out@);
    }
    while i < end
        invariant
            i <= end,
            end == times@.len(),
            times.deep_view().len() == times@.len(),
            out@ == old(out)@ + times_join(times.deep_view().take(i as int)),
        decreases end - i,
    {
        out.append(times[i].as_str());
        out.append(" ");
        proof {
            assert(times.deep_view().take(i + 1).drop_last() =~= times.deep_view().take(i as int));
            assert(times.deep_view().take(i + 1).last() == times@[i as int]@);
            assert(out@ =~= old(out)@ + times_join(times.deep_view().take(i + 1)));
        }
        i = i + 1;
    }
    proof {
        assert(times.deep_view().take(end as int) =~= times.deep_view());
    }
}

/// Render one recipe into its document fragment.
///
/// The fragment opens with the image directive when the recipe's image URL
/// yields a filename, then the title, the side title when present, the
/// timing labels, the main sections, and — only when a side title is
/// present — the side-dish sections.
pub fn render_fragment(rec: &Recipe) -> (r: String)
    ensures
        r@ == spec_render(*rec),
{
    let mut out = String::new();
    match &rec.image_url {
        Some(u) => {
            match image_filename(u) {
                Some(f) => {
                    out.append("\\begin{center}\\includegraphics[height=3in]{");
                    out.append(f.as_str());
                    out.append("}\\end{center}\n\n");
                },
                None => {},
            }
        },
        None => {},
    }
    proof {
        assert(out@ =~= image_part(rec.image_url.deep_view()));
    }
    out.append("{\\noindent\\Large ");
    out.append(rec.title.as_str());
    out.append("}\n\n\\medskip\n");
    let ghost after_title = out@;
    proof {
        assert(after_title =~= image_part(rec.image_url.deep_view()) + title_part(rec.title@));
    }
    match &rec.side_title {
        Some(x) => {
            out.append("{\\noindent\\large ");
            out.append(x.as_str());
            out.append("}\n\n");
            out.append("\\medskip\n");
        },
        None => {},
    }
    let ghost after_side_title = out@;
    proof {
        assert(after_side_title =~= after_title + side_title_part(rec.side_title.deep_view()));
    }
    push_times(&mut out, &rec.times);
    out.append("\n\n\\bigskip\n");
    let ghost after_times = out@;
    proof {
        assert(after_times =~= after_side_title + times_part(rec.times.deep_view()));
    }
    out.append("{\\noindent\\large Ingredients}\n\\begin{itemize}\n");
    push_item_lines(&mut out, &rec.main_ingredients);
    out.append("\\end{itemize}\n\\bigskip\n{\\noindent\\large Instructions}\n\\begin{enumerate}\n");
    push_enum_lines(&mut out, &rec.main_instructions);
    out.append("\\end{enumerate}\n\\bigskip\n");
    let ghost after_main = out@;
    proof {
        assert(after_main =~= after_times + main_part(
            rec.main_ingredients.deep_view(),
            rec.main_instructions.deep_view(),
        ));
    }
    match &rec.side_title {
        Some(_) => {
            out.append("{\\noindent\\large Side Dish Ingredients}\n");
            out.append("\\begin{itemize}\n");
            push_item_lines(&mut out, &rec.side_ingredients);
            out.append("\\end{itemize}\n\\bigskip\n");
            out.append("{\\noindent\\large Side Dish Instructions}\n");
            out.append("\\begin{enumerate}\n");
            push_enum_lines(&mut out, &rec.side_instructions);
            out.append("\\end{enumerate}\n");
        },
        None => {},
    }
    proof {
        assert(out@ =~= after_main + side_part(
            rec.side_title.deep_view(),
            rec.side_ingredients.deep_view(),
            rec.side_instructions.deep_view(),
        ));
        assert(out@ =~= spec_render(*rec));
    }
    out
}


/// Whether `needle` occurs contiguously anywhere inside `hay`.
pub open spec fn has_substring(hay: Seq<char>, needle: Seq<char>) -> bool {
    exists|i: int|
        0 <= i && i + needle.len() <= hay.len() && #[trigger] hay.subrange(i, i + needle.len())
            == needle
}

/// The middle piece of a three-way concatenation is a substring of it.
pub proof fn lemma_substring_at(a: Seq<char>, b: Seq<char>, c: Seq<char>)
    ensures
        has_substring(a + b + c, b),
{
    let hay = a + b + c;
    let i = a.len() as int;
    assert(hay.subrange(i, i + b.len()) =~= b);
    assert(0 <= i && i + b.len() <= hay.len() && hay.subrange(i, i + b.len()) == b);
}

/// A recipe without a side title renders with no side-dish block at all:
/// the fragment is exactly the image directive, the title block, the times
/// block and the main sections, with nothing between or after them.
pub proof fn lemma_render_omits_side(rec: Recipe)
    requires
        rec.side_title is None,
    ensures
        spec_render(rec) == image_part(rec.image_url.deep_view()) + title_part(rec.title@)
            + times_part(rec.times.deep_view()) + main_part(
            rec.main_ingredients.deep_view(),
            rec.main_instructions.deep_view(),
        ),
{
    assert(spec_render(rec) =~= image_part(rec.image_url.deep_view()) + title_part(rec.title@)
        + times_part(rec.times.deep_view()) + main_part(
        rec.main_ingredients.deep_view(),
        rec.main_instructions.deep_view(),
    ));
}

/// A recipe with side title `x` renders with a side heading for `x` and
/// with the side ingredient and instruction section headings, whatever the
/// (possibly empty) side lists hold.
pub proof fn lemma_render_side_headings(rec: Recipe, x: Seq<char>)
    requires
        rec.side_title.deep_view() == Some(x),
    ensures
        has_substring(spec_render(rec), "{\\noindent\\large "@ + x + "}\n\n"@),
        has_substring(spec_render(rec), "{\\noindent\\large Side Dish Ingredients}\n"@),
        has_substring(spec_render(rec), "{\\noindent\\large Side Dish Instructions}\n"@),
{
    let iv = image_part(rec.image_url.deep_view());
    let tv = title_part(rec.title@);
    let tp = times_part(rec.times.deep_view());
    let mp = main_part(rec.main_ingredients.deep_view(), rec.main_instructions.deep_view());
    let ils = item_lines(rec.side_ingredients.deep_view());
    let els = enum_lines(rec.side_instructions.deep_view());

    let heading = "{\\noindent\\large "@ + x + "}\n\n"@;
    let rest1 = "\\medskip\n"@ + tp + mp + side_part(
        rec.side_title.deep_view(),
        rec.side_ingredients.deep_view(),
        rec.side_instructions.deep_view(),
    );
    assert(spec_render(rec) =~= (iv + tv) + heading + rest1);
    lemma_substring_at(iv + tv, heading, rest1);

    let before2 = iv + tv + side_title_part(rec.side_title.deep_view()) + tp + mp;
    let needle2 = "{\\noindent\\large Side Dish Ingredients}\n"@;
    let rest2 = "\\begin{itemize}\n"@ + ils + "\\end{itemize}\n\\bigskip\n"@
        + "{\\noindent\\large Side Dish Instructions}\n"@ + "\\begin{enumerate}\n"@ + els
        + "\\end{enumerate}\n"@;
    assert(spec_render(rec) =~= before2 + needle2 + rest2);
    lemma_substring_at(before2, needle2, rest2);

    let before3 = before2 + needle2 + "\\begin{itemize}\n"@ + ils
        + "\\end{itemize}\n\\bigskip\n"@;
    let needle3 = "{\\noindent\\large Side Dish Instructions}\n"@;
    let rest3 = "\\begin{enumerate}\n"@ + els + "\\end{enumerate}\n"@;
    assert(spec_render(rec) =~= before3 + needle3 + rest3);
    lemma_substring_at(before3, needle3, rest3);
}

/// An image URL whose path ends in `/` yields no filename, so the recipe
/// renders without an image directive: the fragment starts directly with
/// the title block.
pub proof fn lemma_trailing_slash_skips_image(rec: Recipe, u: Seq<char>)
    requires
        rec.image_url.deep_view() == Some(u),
        u.len() > 0,
        u.last() == '/',
    ensures
        spec_image_filename(u) is None,
        spec_render(rec) == title_part(rec.title@) + side_title_part(rec.side_title.deep_view())
            + times_part(rec.times.deep_view()) + main_part(
            rec.main_ingredients.deep_view(),
            rec.main_instructions.deep_view(),
        ) + side_part(
            rec.side_title.deep_view(),
            rec.side_ingredients.deep_view(),
            rec.side_instructions.deep_view(),
        ),
{
    assert(spec_render(rec) =~= title_part(rec.title@) + side_title_part(
        rec.side_title.deep_view(),
    ) + times_part(rec.times.deep_view()) + main_part(
        rec.main_ingredients.deep_view(),
        rec.main_instructions.deep_view(),
    ) + side_part(
        rec.side_title.deep_view(),
        rec.side_ingredients.deep_view(),
        rec.side_instructions.deep_view(),
    ));
}

} // verus!
