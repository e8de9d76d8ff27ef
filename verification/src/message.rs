//! The message tree: the blocks of the outgoing chat message, built from
//! the sorted location groups.

use vstd::prelude::*;
use crate::model::{Entry, EntryV, Group, GroupV};
use crate::seqs::deep;

verus! {

/// One bulleted line of the message: a bold primary name and an optional
/// italic secondary name.
#[derive(Debug)]
pub struct Line {
    pub bold: String,
    pub italic: Option<String>,
}

/// Mathematical image of a [`Line`].
#[verifier::ext_equal]
pub struct LineV {
    pub bold: Seq<char>,
    pub italic: Option<Seq<char>>,
}

impl DeepView for Line {
    type V = LineV;

    open spec fn deep_view(&self) -> LineV {
        LineV { bold: self.bold.deep_view(), italic: self.italic.deep_view() }
    }
}

/// One block of the message: a header, a location section, or a bulleted
/// list of holiday lines.
#[derive(Debug)]
pub enum Block {
    Header(String),
    Section(String),
    Bullets(Vec<Line>),
}

/// Mathematical image of a [`Block`].
#[verifier::ext_equal]
pub enum BlockV {
    Header(Seq<char>),
    Section(Seq<char>),
    Bullets(Seq<LineV>),
}

impl DeepView for Block {
    type V = BlockV;

    open spec fn deep_view(&self) -> BlockV {
        match self {
            Block::Header(t) => BlockV::Header(t.deep_view()),
            Block::Section(t) => BlockV::Section(t.deep_view()),
            Block::Bullets(ls) => BlockV::Bullets(ls.deep_view()),
        }
    }
}

/// The line an entry is rendered as: its primary name in bold, its
/// secondary name, when present, in italics.
pub open spec fn line_of_entry(e: EntryV) -> LineV {
    LineV { bold: e.primary, italic: e.secondary }
}

/// The lines of one group's entries, in order.
pub open spec fn lines_of_entries(es: Seq<EntryV>) -> Seq<LineV> {
    Seq::new(es.len(), |i: int| line_of_entry(es[i]))
}

/// The text of the fixed header block.
pub open spec fn header_text() -> Seq<char> {
    ":calendar: Holidays"@
}

/// The blocks contributed by the groups from index `i` on: one section and
/// one bulleted list per group.
pub open spec fn blocks_from(gs: Seq<GroupV>, i: int) -> Seq<BlockV>
    decreases gs.len() - i,
{
    if i < 0 || i >= gs.len() {
        Seq::<BlockV>::empty()
    } else {
        seq![
            BlockV::Section(gs[i].key),
            BlockV::Bullets(lines_of_entries(gs[i].entries)),
        ] + blocks_from(gs, i + 1)
    }
}

/// The whole message: the fixed header, then each group's two blocks in
/// group order.
pub open spec fn blocks_of_groups(gs: Seq<GroupV>) -> Seq<BlockV> {
    seq![BlockV::Header(header_text())] + blocks_from(gs, 0)
}

/// Turns one group's entries into their message lines, in order.
fn lines_of_group(entries: Vec<Entry>) -> (r: Vec<Line>)
    ensures
        r.deep_view() == lines_of_entries(entries.deep_view()),
{
    let ghost orig: Seq<EntryV> = entries.deep_view();
    proof {
        assert(orig =~= deep(entries@));
    }
    let mut rest = entries;
    let mut r: Vec<Line> = Vec::new();
    let ghost mut i: int = 0;
    while rest.len() > 0
        invariant
            0 <= i <= orig.len(),
            deep(rest@) =~= orig.subrange(i, orig.len() as int),
            deep(r@) =~= lines_of_entries(orig.take(i)),
        decreases rest@.len(),
    {
        let ghost old_rest_s: Seq<Entry> = rest@;
        let ghost old_r_s: Seq<Line> = r@;
        proof {
            assert(deep(old_rest_s).len() == old_rest_s.len());
            assert(i < orig.len());
        }
        let e = rest.remove(0);
        proof {
            assert(rest@ =~= old_rest_s.subrange(1, old_rest_s.len() as int));
            crate::seqs::lemma_deep_subrange(old_rest_s, 1, old_rest_s.len() as int);
            assert(deep(rest@) =~= orig.subrange(i + 1, orig.len() as int));
            assert(deep(old_rest_s)[0] == e.deep_view());
            assert(e.deep_view() == orig[i]);
        }
        let line = Line { bold: e.primary, italic: e.secondary };
        proof {
            assert(line.deep_view() == line_of_entry(orig[i]));
        }
        r.push(line);
        proof {
            crate::seqs::lemma_deep_push(old_r_s, line);
            i = i + 1;
            assert(deep(r@) =~= lines_of_entries(orig.take(i)));
        }
    }
    proof {
        assert(orig.take(orig.len() as int) =~= orig);
        assert(r.deep_view() =~= deep(r@));
    }
    r
}

/// Builds the message blocks for the sorted groups: the fixed header, then
/// per group one section naming the location and one bulleted list with one
/// line per holiday.
pub fn build_blocks(gs: Vec<Group>) -> (r: Vec<Block>)
    ensures
        r.deep_view() == blocks_of_groups(gs.deep_view()),
{
    let ghost orig: Seq<GroupV> = gs.deep_view();
    proof {
        assert(orig =~= deep(gs@));
    }
    let mut rest = gs;
    let mut blocks: Vec<Block> = Vec::new();
    blocks.push(Block::Header(String::from_str(":calendar: Holidays")));
    let ghost mut i: int = 0;
    proof {
        assert(deep(blocks@) =~= seq![BlockV::Header(header_text())]);
    }
    while rest.len() > 0
        invariant
            0 <= i <= orig.len(),
            deep(rest@) =~= orig.subrange(i, orig.len() as int),
            deep(blocks@) + blocks_from(orig, i) =~= blocks_of_groups(orig),
        decreases rest@.len(),
    {
        let ghost old_rest_s: Seq<Group> = rest@;
        let ghost old_blocks: Seq<BlockV> = deep(blocks@);
        proof {
            assert(deep(old_rest_s).len() == old_rest_s.len());
            assert(i < orig.len());
        }
        let g = rest.remove(0);
        proof {
            assert(rest@ =~= old_rest_s.subrange(1, old_rest_s.len() as int));
            crate::seqs::lemma_deep_subrange(old_rest_s, 1, old_rest_s.len() as int);
            assert(deep(rest@) =~= orig.subrange(i + 1, orig.len() as int));
            assert(deep(old_rest_s)[0] == g.deep_view());
            assert(g.deep_view() == orig[i]);
        }
        let Group { key, entries } = g;
        let lines = lines_of_group(entries);
        let section = Block::Section(key);
        proof {
            assert(section.deep_view() == BlockV::Section(orig[i].key));
        }
        blocks.push(section);
        let bullets = Block::Bullets(lines);
        proof {
            assert(bullets.deep_view() == BlockV::Bullets(lines_of_entries(orig[i].entries)));
        }
        blocks.push(bullets);
        proof {
            assert(deep(blocks@) =~= old_blocks + seq![
                BlockV::Section(orig[i].key),
                BlockV::Bullets(lines_of_entries(orig[i].entries)),
            ]);
            assert(blocks_from(orig, i) == seq![
                BlockV::Section(orig[i].key),
                BlockV::Bullets(lines_of_entries(orig[i].entries)),
            ] + blocks_from(orig, i + 1));
            i = i + 1;
            assert(deep(blocks@) + blocks_from(orig, i) =~= blocks_of_groups(orig));
        }
    }
    proof {
        assert(blocks_from(orig, orig.len() as int) =~= Seq::<BlockV>::empty());
        assert(blocks.deep_view() =~= deep(blocks@));
        assert(blocks.deep_view() =~= blocks_of_groups(orig));
    }
    blocks
}

} // verus!
