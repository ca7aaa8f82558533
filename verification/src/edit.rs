use vstd::prelude::*;

use vstd::utf8::encode_utf8;

verus! {

broadcast use vstd::seq::group_seq_axioms, vstd::std_specs::slice::group_slice_axioms;

/// A whole-document replacement: the range spans the original text
/// from its first character to one line past its last line, and the
/// replacement carries the new text in full.
pub struct DocEdit {
    pub start_line: usize,
    pub start_col: usize,
    pub end_line: usize,
    pub end_col: usize,
    pub new_text: String,
}

/// How many newline bytes a text holds.
pub open spec fn count_newlines(b: Seq<u8>) -> nat
    decreases b.len(),
{
    if b.len() == 0 {
        0
    } else {
        (if b[0] == 10 {
            1nat
        } else {
            0nat
        }) + count_newlines(b.drop_first())
    }
}

/// The number of lines of a text, counted as its line iterator does: a
/// final line terminator closes the last line rather than opening a
/// new one, and the empty text has no lines.
pub open spec fn spec_line_count(s: Seq<char>) -> nat {
    let b = encode_utf8(s);
    if b.len() == 0 {
        0
    } else if b.last() == 10 {
        count_newlines(b)
    } else {
        count_newlines(b) + 1
    }
}

/// Strip one final line terminator, whether a bare newline or a
/// carriage return and newline.
pub open spec fn strip_last_terminator(b: Seq<u8>) -> Seq<u8> {
    if b.len() > 0 && b.last() == 10 {
        let c = b.drop_last();
        if c.len() > 0 && c.last() == 13 {
            c.drop_last()
        } else {
            c
        }
    } else {
        b
    }
}

/// How many bytes follow the last newline.
pub open spec fn tail_line_len(b: Seq<u8>) -> nat
    decreases b.len(),
{
    if b.len() == 0 {
        0
    } else if b.last() == 10 {
        0
    } else {
        1 + tail_line_len(b.drop_last())
    }
}

/// The byte length of the last line of a text, with a final line
/// terminator not counted.
pub open spec fn spec_last_line_len(s: Seq<char>) -> nat {
    tail_line_len(strip_last_terminator(encode_utf8(s)))
}

proof fn lemma_count_newlines_push(b: Seq<u8>, x: u8)
    ensures
        count_newlines(b.push(x)) == count_newlines(b) + (if x == 10 {
            1nat
        } else {
            0nat
        }),
    decreases b.len(),
{
    if b.len() == 0 {
        assert(b.push(x)[0] == x);
        assert(b.push(x).drop_first() =~= Seq::empty());
        assert(count_newlines(Seq::empty()) == 0);
    } else {
        assert(b.push(x)[0] == b[0]);
        assert(b.push(x).drop_first() =~= b.drop_first().push(x));
        lemma_count_newlines_push(b.drop_first(), x);
    }
}

/// Count the lines of a text, as its line iterator would.
fn line_count(text: &str) -> (r: usize)
    ensures
        r == spec_line_count(text@),
{
    let b = text.as_bytes();
    let n = b.len();
    let mut cnt: usize = 0;
    let mut i: usize = 0;
    proof {
        assert(b@.subrange(0, 0) =~= Seq::empty());
    }
    while i < n
        invariant
            i <= n,
            n == b@.len(),
            b@ == encode_utf8(text@),
            cnt <= i,
            cnt == count_newlines(b@.subrange(0, i as int)),
            i > 0 && b@[i as int - 1] != 10 ==> cnt < i,
        decreases n - i,
    {
        let x = b[i];
        proof {
            assert(b@.subrange(0, i as int + 1) =~= b@.subrange(0, i as int).push(x));
            lemma_count_newlines_push(b@.subrange(0, i as int), x);
        }
        if x == 10 {
            cnt = cnt + 1;
        }
        i = i + 1;
    }
    proof {
        assert(b@.subrange(0, n as int) =~= b@);
    }
    if n == 0 {
        0
    } else if b[n - 1] == 10 {
        cnt
    } else {
        cnt + 1
    }
}

/// Measure the last line of a text, with a final terminator stripped.
fn last_line_len(text: &str) -> (r: usize)
    ensures
        r == spec_last_line_len(text@),
{
    let b = text.as_bytes();
    let n = b.len();
    let end: usize = if n > 0 && b[n - 1] == 10 {
        if n >= 2 && b[n - 2] == 13 {
            n - 2
        } else {
            n - 1
        }
    } else {
        n
    };
    proof {
        assert(b@.drop_last() =~= b@.subrange(0, n as int - 1)) by {
            if n > 0 {
            } else {
                assert(b@.drop_last() =~= b@.subrange(0, n as int - 1));
            }
        }
        if n > 0 && b@.last() == 10 {
            let c = b@.drop_last();
            if c.len() > 0 && c.last() == 13 {
                assert(c.drop_last() =~= b@.subrange(0, n as int - 2));
            }
        }
        assert(strip_last_terminator(b@) =~= b@.subrange(0, end as int));
    }
    let mut ll: usize = 0;
    let mut i: usize = 0;
    proof {
        assert(b@.subrange(0, 0) =~= Seq::empty());
    }
    while i < end
        invariant
            i <= end,
            end <= n,
            n == b@.len(),
            b@ == encode_utf8(text@),
            strip_last_terminator(b@) == b@.subrange(0, end as int),
            ll <= i,
            ll == tail_line_len(b@.subrange(0, i as int)),
        decreases end - i,
    {
        let x = b[i];
        proof {
            let p = b@.subrange(0, i as int);
            assert(b@.subrange(0, i as int + 1) =~= p.push(x));
            assert(p.push(x).drop_last() =~= p);
        }
        if x == 10 {
            ll = 0;
        } else {
            ll = ll + 1;
        }
        i = i + 1;
    }
    ll
}

/// Describe the whole-document replacement of `original` by
/// `canonical`, the two already known to differ.
pub fn compute_edit(original: &str, canonical: String) -> (r: DocEdit)
    ensures
        r.start_line == 0,
        r.start_col == 0,
        r.end_line == spec_line_count(original@),
        r.end_col == spec_last_line_len(original@),
        r.new_text == canonical,
{
    let end_line = line_count(original);
    let end_col = last_line_len(original);
    DocEdit { start_line: 0, start_col: 0, end_line, end_col, new_text: canonical }
}

} // verus!
