//! The icons page: every icon the resources hold, drawn in text, by name.

use vstd::prelude::*;

use crate::icon::{lit, Icon};
use crate::library::{lemma_text_irreflexive, lemma_text_transitive, text_before, text_less, Icons};
use crate::release::concat;
use crate::text::{chars_of, join, join_strings, push_str, slice_of, string_of, texts, trim_end, trim_end_at};

verus! {

/// Whether `order` lists every index of `list` once, names in order.
pub open spec fn by_name(list: Seq<(String, Icon)>, order: Seq<usize>) -> bool {
    &&& order.len() == list.len()
    &&& forall|k: int| 0 <= k < order.len() ==> #[trigger] order[k] < list.len()
    &&& forall|a: int, b: int| 0 <= a < b < order.len() ==> #[trigger] order[a] != #[trigger] order[b]
    &&& forall|a: int, b: int|
        0 <= a < b < order.len() ==> !text_less(#[trigger] list[order[b] as int].0@, #[trigger] list[order[a] as int].0@)
}

/// The indices of a list of named icons, by name.
fn name_order(list: &Vec<(String, Icon)>) -> (order: Vec<usize>)
    ensures
        by_name(list@, order@),
{
    let mut order: Vec<usize> = Vec::new();
    let mut i: usize = 0;
    while i < list.len()
        invariant
            i <= list@.len(),
            order@.len() == i,
            forall|k: int| 0 <= k < order@.len() ==> #[trigger] order@[k] < i,
            forall|a: int, b: int| 0 <= a < b < order@.len() ==> #[trigger] order@[a] != #[trigger] order@[b],
            forall|a: int, b: int|
                0 <= a < b < order@.len() ==> !text_less(
                    #[trigger] list@[order@[b] as int].0@,
                    #[trigger] list@[order@[a] as int].0@,
                ),
        decreases list@.len() - i,
    {
        let mut k: usize = 0;
        while k < order.len() && !text_before(list[i].0.as_str(), list[order[k]].0.as_str())
            invariant
                k <= order@.len(),
                i < list@.len(),
                forall|j: int| 0 <= j < order@.len() ==> #[trigger] order@[j] < i,
                forall|j: int| 0 <= j < k ==> !text_less(list@[i as int].0@, #[trigger] list@[order@[j] as int].0@),
            decreases order@.len() - k,
        {
            k = k + 1;
        }
        let ghost before = order@;
        let ghost name = list@[i as int].0@;
        order.insert(k, i);
        proof {
            let after = order@;
            assert forall|j: int| 0 <= j < after.len() implies #[trigger] after[j] < i + 1 by {
                if j < k {
                    assert(after[j] == before[j]);
                } else if j > k {
                    assert(after[j] == before[j - 1]);
                }
            }
            assert forall|a: int, b: int| 0 <= a < b < after.len() implies #[trigger] after[a] != #[trigger] after[b] by {
                if b < k {
                    assert(after[a] == before[a] && after[b] == before[b]);
                } else if b == k {
                    assert(after[a] == before[a]);
                } else if a == k {
                    assert(after[b] == before[b - 1]);
                } else if a < k {
                    assert(after[a] == before[a] && after[b] == before[b - 1]);
                } else {
                    assert(after[a] == before[a - 1] && after[b] == before[b - 1]);
                }
            }
            assert forall|a: int, b: int| 0 <= a < b < after.len() implies !text_less(
                #[trigger] list@[after[b] as int].0@,
                #[trigger] list@[after[a] as int].0@,
            ) by {
                if b < k {
                    assert(after[a] == before[a] && after[b] == before[b]);
                } else if b == k {
                    assert(after[a] == before[a]);
                } else if a == k {
                    assert(after[b] == before[b - 1]);
                    if b - 1 == k {
                        assert(text_less(name, list@[before[k as int] as int].0@));
                        if text_less(list@[before[b - 1] as int].0@, name) {
                            lemma_text_transitive(name, list@[before[b - 1] as int].0@, name);
                            lemma_text_irreflexive(name);
                        }
                    } else {
                        assert(text_less(name, list@[before[k as int] as int].0@));
                        if text_less(list@[before[b - 1] as int].0@, name) {
                            lemma_text_transitive(list@[before[b - 1] as int].0@, name, list@[before[k as int] as int].0@);
                            assert(!text_less(list@[before[b - 1] as int].0@, list@[before[k as int] as int].0@));
                        }
                    }
                } else if a < k {
                    assert(after[a] == before[a] && after[b] == before[b - 1]);
                } else {
                    assert(after[a] == before[a - 1] && after[b] == before[b - 1]);
                }
            }
        }
        i = i + 1;
    }
    order
}

/// How many icons one block of the page shows side by side.
pub const PER_ROW: usize = 6;

/// A pixel row drawn two characters a pixel: the first `n` pixels.
pub open spec fn pixels_upto(row: u8, n: int) -> Seq<char>
    decreases n,
{
    if n <= 0 {
        seq![]
    } else {
        pixels_upto(row, n - 1) + if lit(row, (n - 1) as u8) {
            "██"@
        } else {
            "··"@
        }
    }
}

/// A name left-aligned in fourteen columns.
pub open spec fn label(name: Seq<char>) -> Seq<char> {
    if name.len() >= 14 {
        name
    } else {
        name + Seq::new((14 - name.len()) as nat, |i: int| ' ')
    }
}

/// One line of a block: pixel row `y` of each icon, three spaces apart.
pub open spec fn block_line(block: Seq<(Seq<char>, Seq<u8>)>, y: int) -> Seq<char> {
    join(Seq::new(block.len(), |j: int| pixels_upto(block[j].1[y], 7)), "   "@)
}

/// A fenced block of icons side by side, their names below.
pub open spec fn block_text(block: Seq<(Seq<char>, Seq<u8>)>) -> Seq<char> {
    "```\n"@ + concat(Seq::new(7, |y: int| block_line(block, y) + "\n"@)) + trim_end(
        join(Seq::new(block.len(), |j: int| label(block[j].0)), "   "@),
    ) + "\n"@ + "```\n"@
}

/// Blocks of six, in order.
pub open spec fn blocks_text(entries: Seq<(Seq<char>, Seq<u8>)>) -> Seq<char>
    decreases entries.len(),
{
    if entries.len() == 0 {
        seq![]
    } else if entries.len() <= 6 {
        block_text(entries)
    } else {
        block_text(entries.take(6)) + blocks_text(entries.skip(6))
    }
}

/// A titled section of the page.
pub open spec fn section_text(title: Seq<char>, entries: Seq<(Seq<char>, Seq<u8>)>) -> Seq<char> {
    "\n## "@ + title + "\n\n"@ + blocks_text(entries)
}

/// Named icons as names and pixel rows, in the order given.
pub open spec fn ordered(list: Seq<(String, Icon)>, order: Seq<usize>) -> Seq<(Seq<char>, Seq<u8>)> {
    Seq::new(order.len(), |k: int| (list[order[k] as int].0@, list[order[k] as int].1.bits()))
}

/// The page: the category icons, then the badges, each by name.
pub open spec fn page_text(categories: Seq<(Seq<char>, Seq<u8>)>, badges: Seq<(Seq<char>, Seq<u8>)>) -> Seq<char> {
    "# Icons\n\nGenerated from `resources/icons/`. Do not edit.\n"@ + section_text("Categories"@, categories)
        + section_text("Badges"@, badges)
}

/// A pixel row as text.
fn pixel_text(row: u8) -> (r: String)
    ensures
        r@ == pixels_upto(row, 7),
{
    let mut out = String::new();
    let mut x: u8 = 0;
    while x < 7
        invariant
            x <= 7,
            out@ == pixels_upto(row, x as int),
        decreases 7 - x,
    {
        if row & (1u8 << x) != 0 {
            push_str(&mut out, "██");
        } else {
            push_str(&mut out, "··");
        }
        x = x + 1;
    }
    out
}

/// A name padded to fourteen columns.
fn label_text(name: &str) -> (r: String)
    ensures
        r@ == label(name@),
{
    let mut out = String::new();
    push_str(&mut out, name);
    let n = name.unicode_len();
    let mut k: usize = n;
    while k < 14
        invariant
            n == name@.len(),
            n <= k <= 14 || (k == n && n >= 14),
            out@ == name@ + Seq::new((k - n) as nat, |i: int| ' '),
        decreases 14 - k,
    {
        crate::text::push_char(&mut out, ' ');
        assert(out@ =~= name@ + Seq::new((k + 1 - n) as nat, |i: int| ' '));
        k = k + 1;
    }
    assert(out@ =~= label(name@));
    out
}

/// Appends the block of the icons at `order[from..to]`.
fn push_block(out: &mut String, list: &Vec<(String, Icon)>, order: &Vec<usize>, from: usize, to: usize)
    requires
        from < to <= order@.len(),
        forall|k: int| 0 <= k < order@.len() ==> #[trigger] order@[k] < list@.len(),
    ensures
        final(out)@ == old(out)@ + block_text(ordered(list@, order@).subrange(from as int, to as int)),
{
    let ghost block = ordered(list@, order@).subrange(from as int, to as int);
    push_str(out, "```\n");
    let ghost head = out@;
    let mut y: usize = 0;
    while y < 7
        invariant
            y <= 7,
            from < to <= order@.len(),
            forall|k: int| 0 <= k < order@.len() ==> #[trigger] order@[k] < list@.len(),
            block == ordered(list@, order@).subrange(from as int, to as int),
            out@ == head + concat(Seq::new(y as nat, |y: int| block_line(block, y) + "\n"@)),
        decreases 7 - y,
    {
        let mut parts: Vec<String> = Vec::new();
        let mut j: usize = from;
        while j < to
            invariant
                from <= j <= to <= order@.len(),
                y < 7,
                forall|k: int| 0 <= k < order@.len() ==> #[trigger] order@[k] < list@.len(),
                block == ordered(list@, order@).subrange(from as int, to as int),
                texts(parts@) == Seq::new((j - from) as nat, |i: int| pixels_upto(block[i].1[y as int], 7)),
            decreases to - j,
        {
            let icon = &list[order[j]].1;
            let rows = icon.rows();
            let p = pixel_text(rows[y]);
            let ghost old_parts = parts@;
            assert(texts(old_parts).len() == old_parts.len());
            parts.push(p);
            assert(parts@ == old_parts.push(p));
            assert(texts(parts@).len() == parts@.len());
            assert(parts@[(j - from) as int] == p);
            assert(block[(j - from) as int] == (list@[order@[j as int] as int].0@, icon.bits()));
            assert(texts(parts@)[(j - from) as int] == p@);
            assert(forall|i: int| 0 <= i < old_parts.len() ==> texts(parts@)[i] == texts(old_parts)[i]);
            assert(p@ == pixels_upto(block[(j - from) as int].1[y as int], 7));
            assert forall|i: int| 0 <= i < j + 1 - from implies texts(parts@)[i] == pixels_upto(block[i].1[y as int], 7) by {
                if i < j - from {
                    assert(texts(old_parts)[i] == pixels_upto(block[i].1[y as int], 7));
                }
            }
            assert(texts(parts@) =~= Seq::new((j + 1 - from) as nat, |i: int| pixels_upto(block[i].1[y as int], 7)));
            j = j + 1;
        }
        let line = join_strings(parts.as_slice(), "   ");
        push_str(out, line.as_str());
        push_str(out, "\n");
        let ghost f = |y: int| block_line(block, y) + "\n"@;
        assert(Seq::new((y + 1) as nat, f).drop_last() =~= Seq::new(y as nat, f));
        assert(out@ =~= head + concat(Seq::new((y + 1) as nat, f)));
        y = y + 1;
    }
    let mut labels: Vec<String> = Vec::new();
    let mut j: usize = from;
    while j < to
        invariant
            from <= j <= to <= order@.len(),
            forall|k: int| 0 <= k < order@.len() ==> #[trigger] order@[k] < list@.len(),
            block == ordered(list@, order@).subrange(from as int, to as int),
            texts(labels@) == Seq::new((j - from) as nat, |i: int| label(block[i].0)),
        decreases to - j,
    {
        let l = label_text(list[order[j]].0.as_str());
        let ghost old_labels = labels@;
        assert(texts(old_labels).len() == old_labels.len());
        labels.push(l);
        assert(labels@ == old_labels.push(l));
        assert(texts(labels@).len() == labels@.len());
        assert(labels@[(j - from) as int] == l);
        assert(block[(j - from) as int].0 == list@[order@[j as int] as int].0@);
        assert(texts(labels@)[(j - from) as int] == l@);
        assert(forall|i: int| 0 <= i < old_labels.len() ==> texts(labels@)[i] == texts(old_labels)[i]);
        assert forall|i: int| 0 <= i < j + 1 - from implies texts(labels@)[i] == label(block[i].0) by {
            if i < j - from {
                assert(texts(old_labels)[i] == label(block[i].0));
            }
        }
        assert(texts(labels@) =~= Seq::new((j + 1 - from) as nat, |i: int| label(block[i].0)));
        j = j + 1;
    }
    let joined = join_strings(labels.as_slice(), "   ");
    let chars = chars_of(joined.as_str());
    let end = trim_end_at(chars.as_slice());
    let kept = slice_of(chars.as_slice(), 0, end);
    let trimmed = string_of(kept.as_slice());
    push_str(out, trimmed.as_str());
    push_str(out, "\n");
    push_str(out, "```\n");
    assert(out@ =~= old(out)@ + block_text(block));
}

/// Appends a titled section of icons by name.
fn push_section(out: &mut String, title: &str, list: &Vec<(String, Icon)>)
    ensures
        exists|order: Seq<usize>| by_name(list@, order) && final(out)@ == old(out)@ + section_text(title@, ordered(list@, order)),
{
    let order = name_order(list);
    push_str(out, "\n## ");
    push_str(out, title);
    push_str(out, "\n\n");
    let ghost all = ordered(list@, order@);
    let ghost head = out@;
    assert(all.skip(0) =~= all);
    let mut start: usize = 0;
    while start < order.len()
        invariant
            start <= order@.len(),
            by_name(list@, order@),
            all == ordered(list@, order@),
            head + blocks_text(all) == out@ + blocks_text(all.skip(start as int)),
        decreases order@.len() - start,
    {
        let end = if order.len() - start > PER_ROW { start + PER_ROW } else { order.len() };
        let ghost before = out@;
        push_block(out, list, &order, start, end);
        proof {
            let rest = all.skip(start as int);
            if end == order@.len() {
                assert(rest =~= all.subrange(start as int, end as int));
                assert(all.skip(end as int).len() == 0);
            } else {
                assert(rest.take(6) =~= all.subrange(start as int, end as int));
                assert(rest.skip(6) =~= all.skip(end as int));
            }
        }
        start = end;
    }
    assert(all.skip(order@.len() as int).len() == 0);
    assert(out@ =~= old(out)@ + section_text(title@, all));
}

/// The icons page, every icon by name: the categories, then the badges.
pub fn render_icons(icons: &Icons) -> (r: String)
    ensures
        exists|c: Seq<usize>, b: Seq<usize>|
            by_name(icons.categories@, c) && by_name(icons.badges@, b) && r@ == page_text(
                ordered(icons.categories@, c),
                ordered(icons.badges@, b),
            ),
{
    let mut out = crate::text::owned("# Icons\n\nGenerated from `resources/icons/`. Do not edit.\n");
    let ghost head = out@;
    push_section(&mut out, "Categories", &icons.categories);
    let ghost mid = out@;
    push_section(&mut out, "Badges", &icons.badges);
    proof {
        let c = choose|c: Seq<usize>| by_name(icons.categories@, c) && mid == head + section_text("Categories"@, ordered(icons.categories@, c));
        let b = choose|b: Seq<usize>| by_name(icons.badges@, b) && out@ == mid + section_text("Badges"@, ordered(icons.badges@, b));
        assert(out@ =~= page_text(ordered(icons.categories@, c), ordered(icons.badges@, b)));
    }
    out
}

} // verus!
