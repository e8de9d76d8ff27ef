//! Rendering the message tree as the JSON payload posted to the webhook.
//! The wire format is fixed here and nowhere else.

use vstd::prelude::*;
use crate::message::{Block, BlockV, Line, LineV};

verus! {

/// The lower-case hexadecimal digit for `d`.
pub open spec fn hex_digit(d: int) -> char {
    if d == 0 {
        '0'
    } else if d == 1 {
        '1'
    } else if d == 2 {
        '2'
    } else if d == 3 {
        '3'
    } else if d == 4 {
        '4'
    } else if d == 5 {
        '5'
    } else if d == 6 {
        '6'
    } else if d == 7 {
        '7'
    } else if d == 8 {
        '8'
    } else if d == 9 {
        '9'
    } else if d == 10 {
        'a'
    } else if d == 11 {
        'b'
    } else if d == 12 {
        'c'
    } else if d == 13 {
        'd'
    } else if d == 14 {
        'e'
    } else {
        'f'
    }
}

/// How one character appears inside a JSON string literal: quotes and
/// backslashes are escaped, control characters become `\u00XX`, everything
/// else stands for itself.
pub open spec fn json_escape_char(c: char) -> Seq<char> {
    if c == '"' {
        seq!['\\', '"']
    } else if c == '\\' {
        seq!['\\', '\\']
    } else if (c as int) < 32 {
        seq!['\\', 'u', '0', '0', hex_digit(c as int / 16), hex_digit(c as int % 16)]
    } else {
        seq![c]
    }
}

/// The escaped JSON string body of the characters of `s` from index `i` on.
pub open spec fn escaped_from(s: Seq<char>, i: int) -> Seq<char>
    decreases s.len() - i,
{
    if i < 0 || i >= s.len() {
        Seq::<char>::empty()
    } else {
        json_escape_char(s[i]) + escaped_from(s, i + 1)
    }
}

/// The escaped JSON string body of `s` (without the surrounding quotes).
pub open spec fn json_str(s: Seq<char>) -> Seq<char> {
    escaped_from(s, 0)
}

/// Appends the escaped JSON string body of `s` to `out`.
fn append_escaped(out: &mut String, s: &str)
    ensures
        final(out)@ == old(out)@ + json_str(s@),
{
    let n = s.unicode_len();
    let mut i: usize = 0;
    while i < n
        invariant
            i <= n,
            n == s@.len(),
            out@ + escaped_from(s@, i as int) =~= old(out)@ + json_str(s@),
        decreases n - i,
    {
        let ghost before: Seq<char> = out@;
        let c = s.get_char(i);
        proof {
            assert(escaped_from(s@, i as int) == json_escape_char(c) + escaped_from(
                s@,
                i as int + 1,
            ));
        }
        if c == '"' {
            out.append("\\\"");
            proof {
                reveal_strlit("\\\"");
                assert(out@ =~= before + json_escape_char(c));
            }
        } else if c == '\\' {
            out.append("\\\\");
            proof {
                reveal_strlit("\\\\");
                assert(out@ =~= before + json_escape_char(c));
            }
        } else if (c as u32) < 32 {
            let v = c as u32;
            let hi = (v / 16) as usize;
            let lo = (v % 16) as usize;
            out.append("\\u00");
            let digits = "0123456789abcdef";
            proof {
                reveal_strlit("0123456789abcdef");
            }
            let dhi = digits.substring_char(hi, hi + 1);
            out.append(dhi);
            let dlo = digits.substring_char(lo, lo + 1);
            out.append(dlo);
            proof {
                reveal_strlit("\\u00");
                assert(dhi@ =~= seq![hex_digit(v as int / 16)]);
                assert(dlo@ =~= seq![hex_digit(v as int % 16)]);
                assert(out@ =~= before + json_escape_char(c));
            }
        } else {
            let piece = s.substring_char(i, i + 1);
            out.append(piece);
            proof {
                assert(piece@ =~= seq![c]);
                assert(out@ =~= before + json_escape_char(c));
            }
        }
        proof {
            assert(out@ + escaped_from(s@, i as int + 1) =~= old(out)@ + json_str(s@));
        }
        i = i + 1;
    }
    proof {
        assert(escaped_from(s@, n as int) =~= Seq::<char>::empty());
        assert(out@ =~= out@ + Seq::<char>::empty());
    }
}

/// The JSON object of one bulleted line: a rich-text section whose elements
/// are the bold primary text and, when present, the italic secondary text
/// wrapped in parentheses.
pub open spec fn json_of_line(l: LineV) -> Seq<char> {
    "{\"type\":\"rich_text_section\",\"elements\":[{\"type\":\"text\",\"text\":\""@ + json_str(
        l.bold,
    ) + "\",\"style\":{\"bold\":true}}"@ + (match l.italic {
        Some(t) => ",{\"type\":\"text\",\"text\":\" ("@ + json_str(t)
            + ")\",\"style\":{\"italic\":true}}"@,
        None => Seq::<char>::empty(),
    }) + "]}"@
}

/// The JSON objects of the lines from index `i` on, comma-separated.
pub open spec fn joined_lines_from(ls: Seq<LineV>, i: int) -> Seq<char>
    decreases ls.len() - i,
{
    if i < 0 || i >= ls.len() {
        Seq::<char>::empty()
    } else {
        (if i == 0 {
            Seq::<char>::empty()
        } else {
            seq![',']
        }) + json_of_line(ls[i]) + joined_lines_from(ls, i + 1)
    }
}

/// The JSON object of one block.
pub open spec fn json_of_block(b: BlockV) -> Seq<char> {
    match b {
        BlockV::Header(t) => "{\"type\":\"header\",\"text\":{\"type\":\"plain_text\",\"text\":\""@
            + json_str(t) + "\",\"emoji\":true}}"@,
        BlockV::Section(t) => "{\"type\":\"section\",\"text\":{\"type\":\"mrkdwn\",\"text\":\"_"@
            + json_str(t) + "_\"}}"@,
        BlockV::Bullets(ls) => "{\"type\":\"rich_text\",\"elements\":[{\"type\":\"rich_text_list\",\"style\":\"bullet\",\"elements\":["@
            + joined_lines_from(ls, 0) + "]}]}"@,
    }
}

/// The JSON objects of the blocks from index `i` on, comma-separated.
pub open spec fn joined_blocks_from(bs: Seq<BlockV>, i: int) -> Seq<char>
    decreases bs.len() - i,
{
    if i < 0 || i >= bs.len() {
        Seq::<char>::empty()
    } else {
        (if i == 0 {
            Seq::<char>::empty()
        } else {
            seq![',']
        }) + json_of_block(bs[i]) + joined_blocks_from(bs, i + 1)
    }
}

/// The JSON payload of the whole message: an object with one `blocks`
/// array.
pub open spec fn json_of_blocks(bs: Seq<BlockV>) -> Seq<char> {
    "{\"blocks\":["@ + joined_blocks_from(bs, 0) + "]}"@
}

/// Appends one line's JSON object to `out`.
fn append_line(out: &mut String, l: &Line)
    ensures
        final(out)@ == old(out)@ + json_of_line(l.deep_view()),
{
    out.append("{\"type\":\"rich_text_section\",\"elements\":[{\"type\":\"text\",\"text\":\"");
    append_escaped(out, l.bold.as_str());
    out.append("\",\"style\":{\"bold\":true}}");
    match &l.italic {
        Some(t) => {
            out.append(",{\"type\":\"text\",\"text\":\" (");
            append_escaped(out, t.as_str());
            out.append(")\",\"style\":{\"italic\":true}}");
        },
        None => {},
    }
    out.append("]}");
    proof {
        assert(out@ =~= old(out)@ + json_of_line(l.deep_view()));
    }
}

/// Appends one block's JSON object to `out`.
fn append_block(out: &mut String, b: &Block)
    ensures
        final(out)@ == old(out)@ + json_of_block(b.deep_view()),
{
    match b {
        Block::Header(t) => {
            out.append("{\"type\":\"header\",\"text\":{\"type\":\"plain_text\",\"text\":\"");
            append_escaped(out, t.as_str());
            out.append("\",\"emoji\":true}}");
            proof {
                assert(out@ =~= old(out)@ + json_of_block(b.deep_view()));
            }
        },
        Block::Section(t) => {
            out.append("{\"type\":\"section\",\"text\":{\"type\":\"mrkdwn\",\"text\":\"_");
            append_escaped(out, t.as_str());
            out.append("_\"}}");
            proof {
                assert(out@ =~= old(out)@ + json_of_block(b.deep_view()));
            }
        },
        Block::Bullets(ls) => {
            out.append(
                "{\"type\":\"rich_text\",\"elements\":[{\"type\":\"rich_text_list\",\"style\":\"bullet\",\"elements\":[",
            );
            let ghost start: Seq<char> = out@;
            let ghost lsv: Seq<LineV> = ls.deep_view();
            let n = ls.len();
            let mut i: usize = 0;
            proof {
                assert(lsv =~= crate::seqs::deep(ls@));
            }
            while i < n
                invariant
                    i <= n,
                    n == ls@.len(),
                    lsv == ls.deep_view(),
                    lsv =~= crate::seqs::deep(ls@),
                    out@ + joined_lines_from(lsv, i as int) =~= start + joined_lines_from(lsv, 0),
                decreases n - i,
            {
                let ghost before: Seq<char> = out@;
                if i > 0 {
                    out.append(",");
                }
                let line = &ls[i];
                proof {
                    assert(line.deep_view() == lsv[i as int]);
                }
                append_line(out, line);
                proof {
                    reveal_strlit(",");
                    if i > 0 {
                        assert(out@ =~= before + seq![','] + json_of_line(lsv[i as int]));
                    } else {
                        assert(out@ =~= before + Seq::<char>::empty() + json_of_line(
                            lsv[i as int],
                        ));
                    }
                    assert(joined_lines_from(lsv, i as int) == (if i == 0 {
                        Seq::<char>::empty()
                    } else {
                        seq![',']
                    }) + json_of_line(lsv[i as int]) + joined_lines_from(lsv, i as int + 1));
                    assert(out@ + joined_lines_from(lsv, i as int + 1) =~= start
                        + joined_lines_from(lsv, 0));
                }
                i = i + 1;
            }
            out.append("]}]}");
            proof {
                assert(joined_lines_from(lsv, n as int) =~= Seq::<char>::empty());
                assert(out@ =~= old(out)@ + json_of_block(b.deep_view()));
            }
        },
    }
}

/// Renders the whole message as its JSON payload.
pub fn render_message(blocks: &Vec<Block>) -> (r: String)
    ensures
        r@ == json_of_blocks(blocks.deep_view()),
{
    let mut out = String::new();
    out.append("{\"blocks\":[");
    let ghost start: Seq<char> = out@;
    let ghost bsv: Seq<BlockV> = blocks.deep_view();
    proof {
        assert(bsv =~= crate::seqs::deep(blocks@));
    }
    let n = blocks.len();
    let mut i: usize = 0;
    while i < n
        invariant
            i <= n,
            n == blocks@.len(),
            bsv == blocks.deep_view(),
            bsv =~= crate::seqs::deep(blocks@),
            start =~= "{\"blocks\":["@,
            out@ + joined_blocks_from(bsv, i as int) =~= start + joined_blocks_from(bsv, 0),
        decreases n - i,
    {
        let ghost before: Seq<char> = out@;
        if i > 0 {
            out.append(",");
        }
        let block = &blocks[i];
        proof {
            assert(block.deep_view() == bsv[i as int]);
        }
        append_block(&mut out, block);
        proof {
            reveal_strlit(",");
            if i > 0 {
                assert(out@ =~= before + seq![','] + json_of_block(bsv[i as int]));
            } else {
                assert(out@ =~= before + Seq::<char>::empty() + json_of_block(bsv[i as int]));
            }
            assert(joined_blocks_from(bsv, i as int) == (if i == 0 {
                Seq::<char>::empty()
            } else {
                seq![',']
            }) + json_of_block(bsv[i as int]) + joined_blocks_from(bsv, i as int + 1));
            assert(out@ + joined_blocks_from(bsv, i as int + 1) =~= start + joined_blocks_from(
                bsv,
                0,
            ));
        }
        i = i + 1;
    }
    out.append("]}");
    proof {
        assert(joined_blocks_from(bsv, n as int) =~= Seq::<char>::empty());
        assert(out@ =~= json_of_blocks(bsv));
    }
    out
}

} // verus!
