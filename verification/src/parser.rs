//! The layout string parser: the inverse of the serializer.
//!
//! A node is `WxH,X,Y` followed either by `,<id>` (a leaf) or by its
//! children wrapped in `[...]` or `{...}`.  Numbers are written the way the
//! serializer writes them: at least one digit, no leading zeros, below
//! 2^32.  A full layout string may carry the four-hex-digit checksum prefix
//! in front of the body; it is recognized and skipped.
//!
//! The scanner below is the parser's specification: the executable parser
//! succeeds exactly where the scanner does, and then returns a tree whose
//! serialization is exactly the consumed input.

use vstd::prelude::*;

use crate::config::SplitType;
use crate::error::LayoutError;
use crate::node::{LayoutNode, bodies_text, close_char, dims_text, node_body, open_char};
use crate::text::{
    dec_digits, digits_canonical, digits_val, is_digit, is_digit_at, lemma_dec_digits_shape,
    lemma_digits_roundtrip, lemma_digits_val_embed, lemma_scan_digits_run, parse_number,
    scan_digits,
};

verus! {

broadcast use vstd::seq::group_seq_axioms;

/// A number the scanner accepts at `i`: a canonical digit run whose value
/// fits in 32 bits.
pub open spec fn num_ok(s: Seq<char>, i: int) -> bool {
    digits_canonical(s, i, scan_digits(s, i)) && digits_val(s, i, scan_digits(s, i))
        <= 0xFFFF_FFFF
}

/// The value of the number at `i`.
pub open spec fn num_val(s: Seq<char>, i: int) -> int {
    digits_val(s, i, scan_digits(s, i))
}

/// Where one layout node starting at `i` ends, or `None` when no node
/// starts there.
pub open spec fn scan_node(s: Seq<char>, i: int) -> Option<int>
    decreases s.len() - i, 1int,
    when 0 <= i <= s.len()
{
    if !num_ok(s, i) {
        Option::None
    } else {
        let j1 = scan_digits(s, i);
        if !(j1 < s.len() && s[j1] == 'x' && num_ok(s, j1 + 1)) {
            Option::None
        } else {
            let j2 = scan_digits(s, j1 + 1);
            if !(j2 < s.len() && s[j2] == ',' && num_ok(s, j2 + 1)) {
                Option::None
            } else {
                let j3 = scan_digits(s, j2 + 1);
                if !(j3 < s.len() && s[j3] == ',' && num_ok(s, j3 + 1)) {
                    Option::None
                } else {
                    let j4 = scan_digits(s, j3 + 1);
                    if j4 < s.len() && s[j4] == ',' {
                        let j5 = scan_digits(s, j4 + 1);
                        if j5 > j4 + 1 {
                            Option::Some(j5)
                        } else {
                            Option::None
                        }
                    } else if j4 < s.len() && (s[j4] == '{' || s[j4] == '[') {
                        scan_list(s, j4 + 1, if s[j4] == '{' {
                            '}'
                        } else {
                            ']'
                        })
                    } else {
                        Option::None
                    }
                }
            }
        }
    }
}

/// Where a comma-separated list of nodes followed by `close` ends (one
/// past the closing bracket), or `None` when no such list starts at `i`.
pub open spec fn scan_list(s: Seq<char>, i: int, close: char) -> Option<int>
    decreases s.len() - i, 2int,
    when 0 <= i <= s.len()
{
    match scan_node(s, i) {
        Option::None => Option::None,
        Option::Some(j) => if !(i < j <= s.len()) {
            Option::None
        } else if j < s.len() && s[j] == ',' {
            scan_list(s, j + 1, close)
        } else if j < s.len() && s[j] == close {
            Option::Some(j + 1)
        } else {
            Option::None
        },
    }
}

/// The end of the digit run starting at `i`.
fn digit_run_end(s: &str, i: usize) -> (r: usize)
    requires
        i <= s@.len(),
    ensures
        r == scan_digits(s@, i as int),
        i <= r <= s@.len(),
{
    let len = s.unicode_len();
    let mut j = i;
    while j < len && is_digit_at(s, j)
        invariant
            i <= j <= len,
            len == s@.len(),
            scan_digits(s@, i as int) == scan_digits(s@, j as int),
        decreases len - j,
    {
        j = j + 1;
    }
    j
}

/// Reads one layout node starting at `i`.  On success the returned
/// position is where the scanner says the node ends, and the returned
/// tree's serialization is exactly the consumed input.
#[verifier::rlimit(100)]
pub fn parse_node(s: &str, i: usize) -> (r: Result<(LayoutNode, usize), LayoutError>)
    requires
        i <= s@.len(),
    ensures
        r matches Ok(t) ==> {
            &&& scan_node(s@, i as int) == Option::Some(t.1 as int)
            &&& i < t.1 <= s@.len()
            &&& node_body(t.0) == s@.subrange(i as int, t.1 as int)
        },
        r is Err ==> scan_node(s@, i as int) is None,
        r matches Err(e) ==> e is LayoutParseError,
    decreases s@.len() - i, 1int,
{
    let len = s.unicode_len();
    let (w, j1) = match parse_number(s, i) {
        Ok(t) => t,
        Err(e) => {
            return Err(e);
        },
    };
    if !(j1 < len && s.get_char(j1) == 'x') {
        return Err(LayoutError::LayoutParseError { offset: j1 });
    }
    let (h, j2) = match parse_number(s, j1 + 1) {
        Ok(t) => t,
        Err(e) => {
            return Err(e);
        },
    };
    if !(j2 < len && s.get_char(j2) == ',') {
        return Err(LayoutError::LayoutParseError { offset: j2 });
    }
    let (x, j3) = match parse_number(s, j2 + 1) {
        Ok(t) => t,
        Err(e) => {
            return Err(e);
        },
    };
    if !(j3 < len && s.get_char(j3) == ',') {
        return Err(LayoutError::LayoutParseError { offset: j3 });
    }
    let (y, j4) = match parse_number(s, j3 + 1) {
        Ok(t) => t,
        Err(e) => {
            return Err(e);
        },
    };
    proof {
        lemma_digits_roundtrip(s@, i as int, j1 as int);
        lemma_digits_roundtrip(s@, j1 + 1 as int, j2 as int);
        lemma_digits_roundtrip(s@, j2 + 1 as int, j3 as int);
        lemma_digits_roundtrip(s@, j3 + 1 as int, j4 as int);
    }
    if j4 < len && s.get_char(j4) == ',' {
        let j5 = digit_run_end(s, j4 + 1);
        if j5 == j4 + 1 {
            return Err(LayoutError::LayoutParseError { offset: j5 });
        }
        let id = s.substring_char(j4 + 1, j5).to_owned();
        let node = LayoutNode::Leaf { width: w, height: h, x, y, pane_id: id };
        proof {
            assert(node_body(node) == dims_text(w as int, h as int, x as int, y as int)
                + seq![','] + id@);
            assert(node_body(node) =~= s@.subrange(i as int, j5 as int));
        }
        Ok((node, j5))
    } else if j4 < len && s.get_char(j4) == '{' {
        match parse_list(s, j4 + 1, SplitType::Horizontal) {
            Ok((children, j5)) => {
                let node = LayoutNode::Split {
                    width: w,
                    height: h,
                    x,
                    y,
                    split_type: SplitType::Horizontal,
                    children,
                };
                proof {
                    assert(node_body(node) =~= s@.subrange(i as int, j5 as int));
                }
                Ok((node, j5))
            },
            Err(e) => Err(e),
        }
    } else if j4 < len && s.get_char(j4) == '[' {
        match parse_list(s, j4 + 1, SplitType::Vertical) {
            Ok((children, j5)) => {
                let node = LayoutNode::Split {
                    width: w,
                    height: h,
                    x,
                    y,
                    split_type: SplitType::Vertical,
                    children,
                };
                proof {
                    assert(node_body(node) =~= s@.subrange(i as int, j5 as int));
                }
                Ok((node, j5))
            },
            Err(e) => Err(e),
        }
    } else {
        Err(LayoutError::LayoutParseError { offset: j4 })
    }
}

proof fn lemma_bodies_push(cs: Seq<LayoutNode>, n: LayoutNode)
    ensures
        bodies_text(cs.push(n)) == (if cs.len() == 0 {
            node_body(n)
        } else {
            bodies_text(cs) + seq![','] + node_body(n)
        }),
{
    assert(cs.push(n).drop_last() =~= cs);
    assert(cs.push(n).last() == n);
}

/// Reads the children of a container up to and including the closing
/// bracket of the given orientation.
#[verifier::rlimit(100)]
fn parse_list(s: &str, i: usize, st: SplitType) -> (r: Result<(Vec<LayoutNode>, usize), LayoutError>)
    requires
        i <= s@.len(),
    ensures
        r matches Ok(t) ==> {
            &&& scan_list(s@, i as int, close_char(st)) == Option::Some(t.1 as int)
            &&& t.0@.len() >= 1
            &&& i < t.1 <= s@.len()
            &&& bodies_text(t.0@) == s@.subrange(i as int, t.1 - 1)
            &&& s@[t.1 - 1] == close_char(st)
        },
        r is Err ==> scan_list(s@, i as int, close_char(st)) is None,
        r matches Err(e) ==> e is LayoutParseError,
    decreases s@.len() - i, 2int,
{
    let len = s.unicode_len();
    let mut children: Vec<LayoutNode> = Vec::new();
    let mut pos = i;
    loop
        invariant
            i <= pos <= s@.len(),
            len == s@.len(),
            scan_list(s@, i as int, close_char(st)) == scan_list(s@, pos as int, close_char(st)),
            children@.len() == 0 ==> pos == i,
            children@.len() > 0 ==> i < pos && s@[pos - 1] == ',' && bodies_text(children@)
                + seq![','] == s@.subrange(i as int, pos as int),
        decreases s@.len() - pos,
    {
        match parse_node(s, pos) {
            Err(e) => {
                return Err(e);
            },
            Ok((n, j)) => {
                proof {
                    lemma_bodies_push(children@, n);
                }
                let ghost old_children = children@;
                children.push(n);
                proof {
                    if old_children.len() == 0 {
                        assert(bodies_text(children@) == node_body(n));
                        assert(bodies_text(children@) =~= s@.subrange(i as int, j as int));
                    } else {
                        assert(bodies_text(children@) == bodies_text(old_children) + seq![',']
                            + node_body(n));
                        assert(bodies_text(children@) =~= s@.subrange(i as int, j as int));
                    }
                }
                if j < len && s.get_char(j) == ',' {
                    proof {
                        assert(s@.subrange(i as int, j + 1 as int) =~= s@.subrange(
                            i as int,
                            j as int,
                        ) + seq![s@[j as int]]);
                        assert(bodies_text(children@) + seq![','] =~= s@.subrange(
                            i as int,
                            j + 1 as int,
                        ));
                    }
                    pos = j + 1;
                } else if j < len && s.get_char(j) == '}' {
                    if matches!(st, SplitType::Horizontal) {
                        return Ok((children, j + 1));
                    } else {
                        return Err(LayoutError::LayoutParseError { offset: j });
                    }
                } else if j < len && s.get_char(j) == ']' {
                    if matches!(st, SplitType::Vertical) {
                        return Ok((children, j + 1));
                    } else {
                        return Err(LayoutError::LayoutParseError { offset: j });
                    }
                } else {
                    return Err(LayoutError::LayoutParseError { offset: j });
                }
            },
        }
    }
}

/// Where the body of a full layout string starts: after the four-hex-digit
/// checksum prefix and its comma when one is present, else at the front.
pub open spec fn body_start(s: Seq<char>) -> int {
    if s.len() >= 5 && s[4] == ',' && is_hex_char(s[0]) && is_hex_char(s[1]) && is_hex_char(s[2])
        && is_hex_char(s[3]) {
        5
    } else {
        0
    }
}

/// A lowercase hexadecimal digit.
pub open spec fn is_hex_char(c: char) -> bool {
    is_digit(c) || (97 <= c as int <= 102)
}

/// Whether the character at `k` is a lowercase hexadecimal digit.
fn is_hex_at(s: &str, k: usize) -> (r: bool)
    requires
        k < s@.len(),
    ensures
        r == is_hex_char(s@[k as int]),
{
    let c = s.get_char(k);
    let u = c as u32;
    (48 <= u && u <= 57) || (97 <= u && u <= 102)
}

/// Parses a full layout string, with or without its checksum prefix, into
/// a layout tree.  Succeeds exactly when the whole body is one node, and
/// then returns the tree whose serialization is exactly that body.
pub fn parse_layout(s: &str) -> (r: Result<LayoutNode, LayoutError>)
    ensures
        r matches Ok(n) ==> {
            &&& scan_node(s@, body_start(s@)) == Option::Some(s@.len() as int)
            &&& node_body(n) == s@.subrange(body_start(s@), s@.len() as int)
        },
        r is Err ==> scan_node(s@, body_start(s@)) != Option::Some(s@.len() as int),
        r matches Err(e) ==> e is LayoutParseError,
{
    let len = s.unicode_len();
    let start: usize = if len >= 5 && s.get_char(4) == ',' && is_hex_at(s, 0) && is_hex_at(s, 1)
        && is_hex_at(s, 2) && is_hex_at(s, 3) {
        5
    } else {
        0
    };
    proof {
        assert(start == body_start(s@));
    }
    match parse_node(s, start) {
        Ok((n, end)) => {
            if end == len {
                Ok(n)
            } else {
                Err(LayoutError::LayoutParseError { offset: end })
            }
        },
        Err(e) => Err(e),
    }
}


/// A layout tree whose serialization the scanner is complete for: every
/// number fits in 32 bits, every leaf carries a nonempty all-digit pane
/// id, and every container has at least one child.
pub open spec fn node_parseable(n: LayoutNode) -> bool
    decreases n,
{
    match n {
        LayoutNode::Leaf { width, height, x, y, pane_id } => {
            &&& width <= 0xFFFF_FFFFusize
            &&& height <= 0xFFFF_FFFFusize
            &&& x <= 0xFFFF_FFFFusize
            &&& y <= 0xFFFF_FFFFusize
            &&& pane_id@.len() >= 1
            &&& forall|m: int| 0 <= m < pane_id@.len() ==> is_digit(#[trigger] pane_id@[m])
        },
        LayoutNode::Split { width, height, x, y, split_type, children } => {
            &&& width <= 0xFFFF_FFFFusize
            &&& height <= 0xFFFF_FFFFusize
            &&& x <= 0xFFFF_FFFFusize
            &&& y <= 0xFFFF_FFFFusize
            &&& children@.len() >= 1
            &&& forall|i: int| 0 <= i < children@.len() ==> node_parseable(#[trigger] children@[i])
        },
    }
}

/// A region of `s` carrying the decimal rendering of `v`, followed by the
/// end of the string or a non-digit, scans as one number of value `v`.
pub proof fn lemma_number_region(s: Seq<char>, base: int, v: int)
    requires
        0 <= v <= 0xFFFF_FFFF,
        0 <= base,
        base + dec_digits(v).len() <= s.len(),
        forall|m: int|
            0 <= m < dec_digits(v).len() ==> s[base + m] == #[trigger] dec_digits(v)[m],
        base + dec_digits(v).len() == s.len() || !is_digit(s[base + dec_digits(v).len()]),
    ensures
        scan_digits(s, base) == base + dec_digits(v).len(),
        num_ok(s, base),
        num_val(s, base) == v,
{
    lemma_dec_digits_shape(v);
    let k = base + dec_digits(v).len() as int;
    assert forall|m: int| base <= m < k implies is_digit(#[trigger] s[m]) by {
        assert(s[m] == dec_digits(v)[m - base]);
    }
    lemma_scan_digits_run(s, base, k);
    lemma_digits_val_embed(s, base, v);
    assert(s[base] == dec_digits(v)[0]);
}

proof fn lemma_body_len(n: LayoutNode)
    ensures
        node_body(n).len() >= 1,
{
    match n {
        LayoutNode::Leaf { width, .. } => {
            lemma_dec_digits_shape(width as int);
        },
        LayoutNode::Split { width, .. } => {
            lemma_dec_digits_shape(width as int);
        },
    }
}

proof fn lemma_bodies_front(cs: Seq<LayoutNode>)
    requires
        cs.len() >= 2,
    ensures
        bodies_text(cs) == node_body(cs[0]) + seq![','] + bodies_text(cs.drop_first()),
    decreases cs.len(),
{
    if cs.len() == 2 {
        assert(cs.drop_last().len() == 1);
        assert(cs.drop_last()[0] == cs[0]);
        assert(cs.drop_last().last() == cs[0]);
        assert(bodies_text(cs.drop_last()) == node_body(cs[0]));
        assert(cs.drop_first().len() == 1);
        assert(cs.drop_first().last() == cs[1]);
        assert(bodies_text(cs.drop_first()) == node_body(cs[1]));
        assert(cs.last() == cs[1]);
        assert(bodies_text(cs) =~= node_body(cs[0]) + seq![','] + bodies_text(cs.drop_first()));
    } else {
        lemma_bodies_front(cs.drop_last());
        assert(cs.drop_last()[0] == cs[0]);
        assert(cs.drop_last().drop_first() =~= cs.drop_first().drop_last());
        assert(cs.drop_first().len() >= 2);
        assert(cs.drop_first().last() == cs.last());
        assert(bodies_text(cs.drop_first()) == bodies_text(cs.drop_first().drop_last())
            + seq![','] + node_body(cs.drop_first().last()));
        assert(bodies_text(cs) == bodies_text(cs.drop_last()) + seq![','] + node_body(cs.last()));
        assert(bodies_text(cs) =~= node_body(cs[0]) + seq![','] + bodies_text(cs.drop_first()));
    }
}

/// Scanning the serialized geometry prefix `WxH,X,Y`: each number region
/// scans and evaluates to its value, with the separators in place.
#[verifier::rlimit(100)]
proof fn lemma_dims_region(s: Seq<char>, i: int, gw: int, gh: int, gx: int, gy: int, nxt: char)
    requires
        0 <= gw <= 0xFFFF_FFFF,
        0 <= gh <= 0xFFFF_FFFF,
        0 <= gx <= 0xFFFF_FFFF,
        0 <= gy <= 0xFFFF_FFFF,
        0 <= i,
        i + dims_text(gw, gh, gx, gy).len() < s.len(),
        forall|m: int|
            0 <= m < dims_text(gw, gh, gx, gy).len() ==> s[i + m] == #[trigger] dims_text(
                gw,
                gh,
                gx,
                gy,
            )[m],
        s[i + dims_text(gw, gh, gx, gy).len()] == nxt,
        !is_digit(nxt),
    ensures
        num_ok(s, i) && num_val(s, i) == gw,
        scan_digits(s, i) == i + dec_digits(gw).len(),
        s[i + dec_digits(gw).len()] == 'x',
        ({
            let j1 = i + dec_digits(gw).len();
            &&& num_ok(s, j1 + 1) && num_val(s, j1 + 1) == gh
            &&& scan_digits(s, j1 + 1) == j1 + 1 + dec_digits(gh).len()
            &&& s[j1 + 1 + dec_digits(gh).len()] == ','
        }),
        ({
            let j2 = i + dec_digits(gw).len() + 1 + dec_digits(gh).len();
            &&& num_ok(s, j2 + 1) && num_val(s, j2 + 1) == gx
            &&& scan_digits(s, j2 + 1) == j2 + 1 + dec_digits(gx).len()
            &&& s[j2 + 1 + dec_digits(gx).len()] == ','
        }),
        ({
            let j3 = i + dec_digits(gw).len() + 1 + dec_digits(gh).len() + 1 + dec_digits(
                gx,
            ).len();
            &&& num_ok(s, j3 + 1) && num_val(s, j3 + 1) == gy
            &&& scan_digits(s, j3 + 1) == i + dims_text(gw, gh, gx, gy).len()
        }),
{
    lemma_dec_digits_shape(gw);
    lemma_dec_digits_shape(gh);
    lemma_dec_digits_shape(gx);
    lemma_dec_digits_shape(gy);
    let lw = dec_digits(gw).len() as int;
    let lh = dec_digits(gh).len() as int;
    let lx = dec_digits(gx).len() as int;
    let ly = dec_digits(gy).len() as int;
    let dims = dims_text(gw, gh, gx, gy);
    let j1 = i + lw;
    let j2 = j1 + 1 + lh;
    let j3 = j2 + 1 + lx;
    let j4 = j3 + 1 + ly;
    assert(dims.len() == lw + 1 + lh + 1 + lx + 1 + ly);
    assert forall|m: int| 0 <= m < lw implies s[i + m] == #[trigger] dec_digits(gw)[m] by {
        assert(dims[m] == dec_digits(gw)[m]);
        assert(s[i + m] == dims[m]);
    }
    assert(dims[lw] == 'x');
    assert(s[i + lw] == dims[lw]);
    assert(!is_digit('x'));
    lemma_number_region(s, i, gw);
    assert forall|m: int| 0 <= m < lh implies s[j1 + 1 + m] == #[trigger] dec_digits(gh)[m] by {
        assert(dims[lw + 1 + m] == dec_digits(gh)[m]);
        assert(s[i + (lw + 1 + m)] == dims[lw + 1 + m]);
    }
    assert(dims[lw + 1 + lh] == ',');
    assert(s[i + (lw + 1 + lh)] == dims[lw + 1 + lh]);
    assert(!is_digit(','));
    lemma_number_region(s, j1 + 1, gh);
    assert forall|m: int| 0 <= m < lx implies s[j2 + 1 + m] == #[trigger] dec_digits(gx)[m] by {
        assert(dims[lw + 1 + lh + 1 + m] == dec_digits(gx)[m]);
        assert(s[i + (lw + 1 + lh + 1 + m)] == dims[lw + 1 + lh + 1 + m]);
    }
    assert(dims[lw + 1 + lh + 1 + lx] == ',');
    assert(s[i + (lw + 1 + lh + 1 + lx)] == dims[lw + 1 + lh + 1 + lx]);
    lemma_number_region(s, j2 + 1, gx);
    assert forall|m: int| 0 <= m < ly implies s[j3 + 1 + m] == #[trigger] dec_digits(gy)[m] by {
        assert(dims[lw + 1 + lh + 1 + lx + 1 + m] == dec_digits(gy)[m]);
        assert(s[i + (lw + 1 + lh + 1 + lx + 1 + m)] == dims[lw + 1 + lh + 1 + lx + 1 + m]);
    }
    assert(s[j4] == nxt);
    lemma_number_region(s, j3 + 1, gy);
}

proof fn lemma_scan_node_is_leaf(s: Seq<char>, i: int, j: int)
    requires
        0 <= i <= s.len(),
        num_ok(s, i),
        ({
            let j1 = scan_digits(s, i);
            &&& j1 < s.len() && s[j1] == 'x' && num_ok(s, j1 + 1)
            &&& ({
                let j2 = scan_digits(s, j1 + 1);
                &&& j2 < s.len() && s[j2] == ',' && num_ok(s, j2 + 1)
                &&& ({
                    let j3 = scan_digits(s, j2 + 1);
                    &&& j3 < s.len() && s[j3] == ',' && num_ok(s, j3 + 1)
                    &&& ({
                        let j4 = scan_digits(s, j3 + 1);
                        &&& j4 < s.len() && s[j4] == ','
                        &&& scan_digits(s, j4 + 1) == j
                        &&& j > j4 + 1
                    })
                })
            })
        }),
    ensures
        scan_node(s, i) == Option::Some(j),
{
}

proof fn lemma_scan_node_is_split(s: Seq<char>, i: int, j: int)
    requires
        0 <= i <= s.len(),
        num_ok(s, i),
        ({
            let j1 = scan_digits(s, i);
            &&& j1 < s.len() && s[j1] == 'x' && num_ok(s, j1 + 1)
            &&& ({
                let j2 = scan_digits(s, j1 + 1);
                &&& j2 < s.len() && s[j2] == ',' && num_ok(s, j2 + 1)
                &&& ({
                    let j3 = scan_digits(s, j2 + 1);
                    &&& j3 < s.len() && s[j3] == ',' && num_ok(s, j3 + 1)
                    &&& ({
                        let j4 = scan_digits(s, j3 + 1);
                        &&& j4 < s.len() && (s[j4] == '{' || s[j4] == '[')
                        &&& scan_list(s, j4 + 1, if s[j4] == '{' {
                            '}'
                        } else {
                            ']'
                        }) == Option::Some(j)
                    })
                })
            })
        }),
    ensures
        scan_node(s, i) == Option::Some(j),
{
}

proof fn lemma_scan_list_cons(s: Seq<char>, i: int, m0: int, j: int, close: char)
    requires
        0 <= i <= s.len(),
        scan_node(s, i) == Option::Some(m0),
        i < m0 < s.len(),
        s[m0] == ',',
        scan_list(s, m0 + 1, close) == Option::Some(j),
    ensures
        scan_list(s, i, close) == Option::Some(j),
{
}

proof fn lemma_scan_list_last(s: Seq<char>, i: int, j: int, close: char)
    requires
        0 <= i <= s.len(),
        scan_node(s, i) == Option::Some(j),
        i < j < s.len(),
        s[j] == close,
        close == '}' || close == ']',
    ensures
        scan_list(s, i, close) == Option::Some(j + 1),
{
}

/// The scanner is complete for rendered layouts: a serialized tree that
/// sits in `s` from `i` to `j`, followed by the end of the string or by a
/// separator or closing bracket, scans as exactly one node ending at `j`.
pub proof fn lemma_scan_of_body(n: LayoutNode, s: Seq<char>, i: int, j: int)
    requires
        node_parseable(n),
        0 <= i <= j <= s.len(),
        s.subrange(i, j) == node_body(n),
        j == s.len() || s[j] == ',' || s[j] == '}' || s[j] == ']',
    ensures
        scan_node(s, i) == Option::Some(j),
    decreases n, 1int,
{
    match n {
        LayoutNode::Leaf { .. } => {
            lemma_scan_of_leaf(n, s, i, j);
        },
        LayoutNode::Split { .. } => {
            lemma_scan_of_split(n, s, i, j);
        },
    }
}

#[verifier::rlimit(100)]
proof fn lemma_scan_of_leaf(n: LayoutNode, s: Seq<char>, i: int, j: int)
    requires
        n is Leaf,
        node_parseable(n),
        0 <= i <= j <= s.len(),
        s.subrange(i, j) == node_body(n),
        j == s.len() || s[j] == ',' || s[j] == '}' || s[j] == ']',
    ensures
        scan_node(s, i) == Option::Some(j),
{
    let body = node_body(n);
    assert(body.len() == j - i);
    assert forall|q: int| i <= q < j implies #[trigger] s[q] == body[q - i] by {
        assert(s.subrange(i, j)[q - i] == s[q]);
    }
    match n {
        LayoutNode::Leaf { width, height, x, y, pane_id } => {
            let gw = width as int;
            let gh = height as int;
            let gx = x as int;
            let gy = y as int;
            let dims = dims_text(gw, gh, gx, gy);
            assert(body[dims.len() as int] == ',');
            assert forall|m: int| 0 <= m < dims.len() implies s[i + m] == #[trigger] dims[m] by {
                assert(body[m] == dims[m]);
                assert(s[i + m] == body[m]);
            }
            assert(s[i + dims.len()] == body[dims.len() as int]);
            assert(!is_digit(','));
            lemma_dims_region(s, i, gw, gh, gx, gy, ',');
            let j4 = i + dims.len() as int;
            assert(j == j4 + 1 + pane_id@.len());
            assert forall|m: int| j4 + 1 <= m < j implies is_digit(#[trigger] s[m]) by {
                assert(body[m - i] == pane_id@[m - (j4 + 1)]);
                assert(s[m] == body[m - i]);
            }
            assert(j == s.len() || !is_digit(s[j]));
            lemma_scan_digits_run(s, j4 + 1, j);
            lemma_scan_node_is_leaf(s, i, j);
        },
        LayoutNode::Split { .. } => {
            assert(false);
        },
    }
}

#[verifier::rlimit(100)]
proof fn lemma_scan_of_split(n: LayoutNode, s: Seq<char>, i: int, j: int)
    requires
        n is Split,
        node_parseable(n),
        0 <= i <= j <= s.len(),
        s.subrange(i, j) == node_body(n),
        j == s.len() || s[j] == ',' || s[j] == '}' || s[j] == ']',
    ensures
        scan_node(s, i) == Option::Some(j),
    decreases n, 0int,
{
    let body = node_body(n);
    assert(body.len() == j - i);
    assert forall|q: int| i <= q < j implies #[trigger] s[q] == body[q - i] by {
        assert(s.subrange(i, j)[q - i] == s[q]);
    }
    match n {
        LayoutNode::Split { width, height, x, y, split_type, children } => {
            let gw = width as int;
            let gh = height as int;
            let gx = x as int;
            let gy = y as int;
            let dims = dims_text(gw, gh, gx, gy);
            let oc = open_char(split_type);
            let cc = close_char(split_type);
            assert(body[dims.len() as int] == oc);
            assert forall|m: int| 0 <= m < dims.len() implies s[i + m] == #[trigger] dims[m] by {
                assert(body[m] == dims[m]);
                assert(s[i + m] == body[m]);
            }
            assert(s[i + dims.len()] == body[dims.len() as int]);
            assert(oc == '{' || oc == '[');
            assert(!is_digit('{') && !is_digit('['));
            lemma_dims_region(s, i, gw, gh, gx, gy, oc);
            let j4 = i + dims.len() as int;
            assert(s[j4] == oc);
            assert(body[j - i - 1] == cc);
            assert(s[j - 1] == body[j - 1 - i]);
            assert(s[j - 1] == cc);
            let bt = bodies_text(children@);
            assert(body.len() == dims.len() + 1 + bt.len() + 1);
            assert(s.subrange(j4 + 1, j - 1) =~= bt) by {
                assert forall|m: int| 0 <= m < bt.len() implies s.subrange(j4 + 1, j - 1)[m]
                    == bt[m] by {
                    assert(body[dims.len() + 1 + m] == bt[m]);
                    assert(s[j4 + 1 + m] == body[j4 + 1 + m - i]);
                    assert(s.subrange(j4 + 1, j - 1)[m] == s[j4 + 1 + m]);
                }
            }
            lemma_scan_of_list(children@, s, j4 + 1, j - 1, cc);
            lemma_scan_node_is_split(s, i, j);
        },
        LayoutNode::Leaf { .. } => {
            assert(false);
        },
    }
}

#[verifier::rlimit(100)]
proof fn lemma_scan_of_list(cs: Seq<LayoutNode>, s: Seq<char>, i: int, j: int, close: char)
    requires
        cs.len() >= 1,
        forall|k: int| 0 <= k < cs.len() ==> node_parseable(#[trigger] cs[k]),
        0 <= i <= j < s.len(),
        s.subrange(i, j) == bodies_text(cs),
        s[j] == close,
        close == '}' || close == ']',
    ensures
        scan_list(s, i, close) == Option::Some(j + 1),
    decreases cs, 2int,
{
    let bt = bodies_text(cs);
    assert(bt.len() == j - i);
    assert forall|q: int| i <= q < j implies #[trigger] s[q] == bt[q - i] by {
        assert(s.subrange(i, j)[q - i] == s[q]);
    }
    if cs.len() == 1 {
        assert(cs.last() == cs[0]);
        assert(bodies_text(cs) == node_body(cs[0]));
        lemma_scan_of_body(cs[0], s, i, j);
        lemma_body_len(cs[0]);
        lemma_scan_list_last(s, i, j, close);
    } else {
        lemma_bodies_front(cs);
        let b0 = node_body(cs[0]);
        let rest = bodies_text(cs.drop_first());
        lemma_body_len(cs[0]);
        let m0 = i + b0.len() as int;
        assert(bt == b0 + seq![','] + rest);
        assert(s.subrange(i, m0) =~= b0) by {
            assert forall|m: int| 0 <= m < b0.len() implies s.subrange(i, m0)[m] == b0[m] by {
                assert(bt[m] == b0[m]);
                assert(s[i + m] == bt[m]);
                assert(s.subrange(i, m0)[m] == s[i + m]);
            }
        }
        assert(bt[b0.len() as int] == ',');
        assert(s[m0] == bt[m0 - i]);
        assert(s[m0] == ',');
        lemma_scan_of_body(cs[0], s, i, m0);
        assert(s.subrange(m0 + 1, j) =~= rest) by {
            assert forall|m: int| 0 <= m < rest.len() implies s.subrange(m0 + 1, j)[m]
                == rest[m] by {
                assert(bt[b0.len() + 1 + m] == rest[m]);
                assert(s[m0 + 1 + m] == bt[m0 + 1 + m - i]);
                assert(s.subrange(m0 + 1, j)[m] == s[m0 + 1 + m]);
            }
        }
        assert(cs.drop_first().len() >= 1);
        assert forall|k: int| 0 <= k < cs.drop_first().len() implies node_parseable(
            #[trigger] cs.drop_first()[k],
        ) by {
            assert(cs.drop_first()[k] == cs[k + 1]);
        }
        lemma_scan_of_list(cs.drop_first(), s, m0 + 1, j, close);
        lemma_scan_list_cons(s, i, m0, j + 1, close);
    }
}

/// The parser is complete for what the engine emits: the serialized body
/// of a parseable tree scans as exactly one node covering the whole body,
/// so parsing it succeeds and, by the parser's own contract, returns a
/// tree with that same serialization.
pub proof fn lemma_parse_of_rendered_body(n: LayoutNode)
    requires
        node_parseable(n),
    ensures
        scan_node(node_body(n), 0) == Option::Some(node_body(n).len() as int),
{
    let body = node_body(n);
    assert(body.subrange(0, body.len() as int) =~= body);
    lemma_scan_of_body(n, body, 0, body.len() as int);
}

} // verus!
