//! The two output documents of a run, as text: the shopping list (one
//! ingredient per line, in aggregate-append order) and the recipe document
//! (a fixed preamble, one fragment per harvested recipe separated by page
//! breaks, and a fixed closing marker). Writing them to disk is the
//! caller's business.

use vstd::prelude::*;

verus! {

/// One line per item, each closed by a newline.
pub open spec fn lines_text(items: Seq<Seq<char>>) -> Seq<char>
    decreases items.len(),
{
    if items.len() == 0 {
        Seq::empty()
    } else {
        lines_text(items.drop_last()) + items.last() + "\n"@
    }
}

/// The fixed preamble the recipe document opens with.
pub open spec fn document_begin() -> Seq<char> {
    "\n\\documentclass[12pt]{article}\n\n\\usepackage{fullpage}\n\\usepackage{fontspec}\n\\usepackage{multicol}\n\\usepackage{graphicx}\n\n\\setmainfont{Andika}\n\n\\pagestyle{empty}\n\n\\begin{document}\n"@
}

/// The fixed closing marker the recipe document ends with.
pub open spec fn document_end() -> Seq<char> {
    "\n\\end{document}\n"@
}

/// Each fragment followed by an explicit page break.
pub open spec fn fragments_block(fragments: Seq<Seq<char>>) -> Seq<char>
    decreases fragments.len(),
{
    if fragments.len() == 0 {
        Seq::empty()
    } else {
        fragments_block(fragments.drop_last()) + fragments.last() + "\n\\newpage\n"@
    }
}

/// The whole recipe document for a run's fragments.
pub open spec fn spec_recipes_document(fragments: Seq<Seq<char>>) -> Seq<char> {
    document_begin() + fragments_block(fragments) + document_end()
}

/// The shopping-list text: every aggregated ingredient, one per line, in
/// aggregate-append order.
pub fn ingredients_text(items: &Vec<String>) -> (r: String)
    ensures
        r@ == lines_text(items.deep_view()),
{
    let mut out = String::new();
    let end = items.len();
    let mut i: usize = 0;
    proof {
        assert(lines_text(items.deep_view().take(0)) =~= Seq::<char>::empty());
        assert(out@ =~= lines_text(items.deep_view().take(0)));
    }
    while i < end
        invariant
            i <= end,
            end == items@.len(),
            items.deep_view().len() == items@.len(),
            out@ == lines_text(items.deep_view().take(i as int)),
        decreases end - i,
    {
        out.append(items[i].as_str());
        out.append("\n");
        proof {
            assert(items.deep_view().take(i + 1).drop_last() =~= items.deep_view().take(i as int));
            assert(items.deep_view().take(i + 1).last() == items@[i as int]@);
            assert(out@ =~= lines_text(items.deep_view().take(i + 1)));
        }
        i = i + 1;
    }
    proof {
        assert(items.deep_view().take(end as int) =~= items.deep_view());
    }
    out
}

/// The recipe document: the preamble, every fragment followed by a page
/// break, and the closing marker.
pub fn recipes_document(fragments: &Vec<String>) -> (r: String)
    ensures
        r@ == spec_recipes_document(fragments.deep_view()),
{
    let mut out = String::new();
    out.append(
        "\n\\documentclass[12pt]{article}\n\n\\usepackage{fullpage}\n\\usepackage{fontspec}\n\\usepackage{multicol}\n\\usepackage{graphicx}\n\n\\setmainfont{Andika}\n\n\\pagestyle{empty}\n\n\\begin{document}\n",
    );
    let end = fragments.len();
    let mut i: usize = 0;
    proof {
        assert(fragments_block(fragments.deep_view().take(0)) =~= Seq::<char>::empty());
        assert(out@ =~= document_begin() + fragments_block(fragments.deep_view().take(0)));
    }
    while i < end
        invariant
            i <= end,
            end == fragments@.len(),
            fragments.deep_view().len() == fragments@.len(),
            out@ == document_begin() + fragments_block(fragments.deep_view().take(i as int)),
        decreases end - i,
    {
        out.append(fragments[i].as_str());
        out.append("\n\\newpage\n");
        proof {
            assert(fragments.deep_view().take(i + 1).drop_last() =~= fragments.deep_view().take(
                i as int,
            ));
            assert(fragments.deep_view().take(i + 1).last() == fragments@[i as int]@);
            assert(out@ =~= document_begin() + fragments_block(
                fragments.deep_view().take(i + 1),
            ));
        }
        i = i + 1;
    }
    out.append("\n\\end{document}\n");
    proof {
        assert(fragments.deep_view().take(end as int) =~= fragments.deep_view());
        assert(out@ =~= spec_recipes_document(fragments.deep_view()));
    }
    out
}

} // verus!
