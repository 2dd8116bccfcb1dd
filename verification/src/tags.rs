//! The HTML tag names that open HTML blocks.
use vstd::prelude::*;
use crate::text::chars_eq;

verus! {

/// The tag names that start an HTML block of the first kind.
pub open spec fn is_raw_tag_name(t: Seq<char>) -> bool {
    t =~= seq!['p', 'r', 'e']
        || t =~= seq!['s', 'c', 'r', 'i', 'p', 't']
        || t =~= seq!['s', 't', 'y', 'l', 'e']
        || t =~= seq!['t', 'e', 'x', 't', 'a', 'r', 'e', 'a']
}

/// The tag names that start an HTML block of the sixth kind.
pub open spec fn is_block_tag_name(t: Seq<char>) -> bool {
    t =~= seq!['a', 'd', 'd', 'r', 'e', 's', 's']
        || t =~= seq!['a', 'r', 't', 'i', 'c', 'l', 'e']
        || t =~= seq!['a', 's', 'i', 'd', 'e']
        || t =~= seq!['b', 'a', 's', 'e']
        || t =~= seq!['b', 'a', 's', 'e', 'f', 'o', 'n', 't']
        || t =~= seq!['b', 'l', 'o', 'c', 'k', 'q', 'u', 'o', 't', 'e']
        || t =~= seq!['b', 'o', 'd', 'y']
        || t =~= seq!['c', 'a', 'p', 't', 'i', 'o', 'n']
        || t =~= seq!['c', 'e', 'n', 't', 'e', 'r']
        || t =~= seq!['c', 'o', 'l']
        || t =~= seq!['c', 'o', 'l', 'g', 'r', 'o', 'u', 'p']
        || t =~= seq!['d', 'd']
        || t =~= seq!['d', 'e', 't', 'a', 'i', 'l', 's']
        || t =~= seq!['d', 'i', 'a', 'l', 'o', 'g']
        || t =~= seq!['d', 'i', 'r']
        || t =~= seq!['d', 'i', 'v']
        || t =~= seq!['d', 'l']
        || t =~= seq!['d', 't']
        || t =~= seq!['f', 'i', 'e', 'l', 'd', 's', 'e', 't']
        || t =~= seq!['f', 'i', 'g', 'c', 'a', 'p', 't', 'i', 'o', 'n']
        || t =~= seq!['f', 'i', 'g', 'u', 'r', 'e']
        || t =~= seq!['f', 'o', 'o', 't', 'e', 'r']
        || t =~= seq!['f', 'o', 'r', 'm']
        || t =~= seq!['f', 'r', 'a', 'm', 'e']
        || t =~= seq!['f', 'r', 'a', 'm', 'e', 's', 'e', 't']
        || t =~= seq!['h', '1']
        || t =~= seq!['h', '2']
        || t =~= seq!['h', '3']
        || t =~= seq!['h', '4']
        || t =~= seq!['h', '5']
        || t =~= seq!['h', '6']
        || t =~= seq!['h', 'e', 'a', 'd']
        || t =~= seq!['h', 'e', 'a', 'd', 'e', 'r']
        || t =~= seq!['h', 'r']
        || t =~= seq!['h', 't', 'm', 'l']
        || t =~= seq!['i', 'f', 'r', 'a', 'm', 'e']
        || t =~= seq!['l', 'e', 'g', 'e', 'n', 'd']
        || t =~= seq!['l', 'i']
        || t =~= seq!['l', 'i', 'n', 'k']
        || t =~= seq!['m', 'a', 'i', 'n']
        || t =~= seq!['m', 'e', 'n', 'u']
        || t =~= seq!['m', 'e', 'n', 'u', 'i', 't', 'e', 'm']
        || t =~= seq!['n', 'a', 'v']
        || t =~= seq!['n', 'o', 'f', 'r', 'a', 'm', 'e', 's']
        || t =~= seq!['o', 'l']
        || t =~= seq!['o', 'p', 't', 'g', 'r', 'o', 'u', 'p']
        || t =~= seq!['o', 'p', 't', 'i', 'o', 'n']
        || t =~= seq!['p']
        || t =~= seq!['p', 'a', 'r', 'a', 'm']
        || t =~= seq!['s', 'e', 'c', 't', 'i', 'o', 'n']
        || t =~= seq!['s', 'o', 'u', 'r', 'c', 'e']
        || t =~= seq!['s', 'u', 'm', 'm', 'a', 'r', 'y']
        || t =~= seq!['t', 'a', 'b', 'l', 'e']
        || t =~= seq!['t', 'b', 'o', 'd', 'y']
        || t =~= seq!['t', 'd']
        || t =~= seq!['t', 'f', 'o', 'o', 't']
        || t =~= seq!['t', 'h']
        || t =~= seq!['t', 'h', 'e', 'a', 'd']
        || t =~= seq!['t', 'i', 't', 'l', 'e']
        || t =~= seq!['t', 'r']
        || t =~= seq!['t', 'r', 'a', 'c', 'k']
        || t =~= seq!['u', 'l']
}

pub fn is_raw_tag(t: &[char]) -> (r: bool)
    ensures
        r == is_raw_tag_name(t@),
{
    let w0 = ['p', 'r', 'e'];
    proof {
        assert(w0@ =~= seq!['p', 'r', 'e']);
    }
    if chars_eq(t, w0.as_slice()) {
        return true;
    }
    let w1 = ['s', 'c', 'r', 'i', 'p', 't'];
    proof {
        assert(w1@ =~= seq!['s', 'c', 'r', 'i', 'p', 't']);
    }
    if chars_eq(t, w1.as_slice()) {
        return true;
    }
    let w2 = ['s', 't', 'y', 'l', 'e'];
    proof {
        assert(w2@ =~= seq!['s', 't', 'y', 'l', 'e']);
    }
    if chars_eq(t, w2.as_slice()) {
        return true;
    }
    let w3 = ['t', 'e', 'x', 't', 'a', 'r', 'e', 'a'];
    proof {
        assert(w3@ =~= seq!['t', 'e', 'x', 't', 'a', 'r', 'e', 'a']);
    }
    if chars_eq(t, w3.as_slice()) {
        return true;
    }
    false
}

pub fn is_block_tag(t: &[char]) -> (r: bool)
    ensures
        r == is_block_tag_name(t@),
{
    let w0 = ['a', 'd', 'd', 'r', 'e', 's', 's'];
    proof {
        assert(w0@ =~= seq!['a', 'd', 'd', 'r', 'e', 's', 's']);
    }
    if chars_eq(t, w0.as_slice()) {
        return true;
    }
    let w1 = ['a', 'r', 't', 'i', 'c', 'l', 'e'];
    proof {
        assert(w1@ =~= seq!['a', 'r', 't', 'i', 'c', 'l', 'e']);
    }
    if chars_eq(t, w1.as_slice()) {
        return true;
    }
    let w2 = ['a', 's', 'i', 'd', 'e'];
    proof {
        assert(w2@ =~= seq!['a', 's', 'i', 'd', 'e']);
    }
    if chars_eq(t, w2.as_slice()) {
        return true;
    }
    let w3 = ['b', 'a', 's', 'e'];
    proof {
        assert(w3@ =~= seq!['b', 'a', 's', 'e']);
    }
    if chars_eq(t, w3.as_slice()) {
        return true;
    }
    let w4 = ['b', 'a', 's', 'e', 'f', 'o', 'n', 't'];
    proof {
        assert(w4@ =~= seq!['b', 'a', 's', 'e', 'f', 'o', 'n', 't']);
    }
    if chars_eq(t, w4.as_slice()) {
        return true;
    }
    let w5 = ['b', 'l', 'o', 'c', 'k', 'q', 'u', 'o', 't', 'e'];
    proof {
        assert(w5@ =~= seq!['b', 'l', 'o', 'c', 'k', 'q', 'u', 'o', 't', 'e']);
    }
    if chars_eq(t, w5.as_slice()) {
        return true;
    }
    let w6 = ['b', 'o', 'd', 'y'];
    proof {
        assert(w6@ =~= seq!['b', 'o', 'd', 'y']);
    }
    if chars_eq(t, w6.as_slice()) {
        return true;
    }
    let w7 = ['c', 'a', 'p', 't', 'i', 'o', 'n'];
    proof {
        assert(w7@ =~= seq!['c', 'a', 'p', 't', 'i', 'o', 'n']);
    }
    if chars_eq(t, w7.as_slice()) {
        return true;
    }
    let w8 = ['c', 'e', 'n', 't', 'e', 'r'];
    proof {
        assert(w8@ =~= seq!['c', 'e', 'n', 't', 'e', 'r']);
    }
    if chars_eq(t, w8.as_slice()) {
        return true;
    }
    let w9 = ['c', 'o', 'l'];
    proof {
        assert(w9@ =~= seq!['c', 'o', 'l']);
    }
    if chars_eq(t, w9.as_slice()) {
        return true;
    }
    let w10 = ['c', 'o', 'l', 'g', 'r', 'o', 'u', 'p'];
    proof {
        assert(w10@ =~= seq!['c', 'o', 'l', 'g', 'r', 'o', 'u', 'p']);
    }
    if chars_eq(t, w10.as_slice()) {
        return true;
    }
    let w11 = ['d', 'd'];
    proof {
        assert(w11@ =~= seq!['d', 'd']);
    }
    if chars_eq(t, w11.as_slice()) {
        return true;
    }
    let w12 = ['d', 'e', 't', 'a', 'i', 'l', 's'];
    proof {
        assert(w12@ =~= seq!['d', 'e', 't', 'a', 'i', 'l', 's']);
    }
    if chars_eq(t, w12.as_slice()) {
        return true;
    }
    let w13 = ['d', 'i', 'a', 'l', 'o', 'g'];
    proof {
        assert(w13@ =~= seq!['d', 'i', 'a', 'l', 'o', 'g']);
    }
    if chars_eq(t, w13.as_slice()) {
        return true;
    }
    let w14 = ['d', 'i', 'r'];
    proof {
        assert(w14@ =~= seq!['d', 'i', 'r']);
    }
    if chars_eq(t, w14.as_slice()) {
        return true;
    }
    let w15 = ['d', 'i', 'v'];
    proof {
        assert(w15@ =~= seq!['d', 'i', 'v']);
    }
    if chars_eq(t, w15.as_slice()) {
        return true;
    }
    let w16 = ['d', 'l'];
    proof {
        assert(w16@ =~= seq!['d', 'l']);
    }
    if chars_eq(t, w16.as_slice()) {
        return true;
    }
    let w17 = ['d', 't'];
    proof {
        assert(w17@ =~= seq!['d', 't']);
    }
    if chars_eq(t, w17.as_slice()) {
        return true;
    }
    let w18 = ['f', 'i', 'e', 'l', 'd', 's', 'e', 't'];
    proof {
        assert(w18@ =~= seq!['f', 'i', 'e', 'l', 'd', 's', 'e', 't']);
    }
    if chars_eq(t, w18.as_slice()) {
        return true;
    }
    let w19 = ['f', 'i', 'g', 'c', 'a', 'p', 't', 'i', 'o', 'n'];
    proof {
        assert(w19@ =~= seq!['f', 'i', 'g', 'c', 'a', 'p', 't', 'i', 'o', 'n']);
    }
    if chars_eq(t, w19.as_slice()) {
        return true;
    }
    let w20 = ['f', 'i', 'g', 'u', 'r', 'e'];
    proof {
        assert(w20@ =~= seq!['f', 'i', 'g', 'u', 'r', 'e']);
    }
    if chars_eq(t, w20.as_slice()) {
        return true;
    }
    let w21 = ['f', 'o', 'o', 't', 'e', 'r'];
    proof {
        assert(w21@ =~= seq!['f', 'o', 'o', 't', 'e', 'r']);
    }
    if chars_eq(t, w21.as_slice()) {
        return true;
    }
    let w22 = ['f', 'o', 'r', 'm'];
    proof {
        assert(w22@ =~= seq!['f', 'o', 'r', 'm']);
    }
    if chars_eq(t, w22.as_slice()) {
        return true;
    }
    let w23 = ['f', 'r', 'a', 'm', 'e'];
    proof {
        assert(w23@ =~= seq!['f', 'r', 'a', 'm', 'e']);
    }
    if chars_eq(t, w23.as_slice()) {
        return true;
    }
    let w24 = ['f', 'r', 'a', 'm', 'e', 's', 'e', 't'];
    proof {
        assert(w24@ =~= seq!['f', 'r', 'a', 'm', 'e', 's', 'e', 't']);
    }
    if chars_eq(t, w24.as_slice()) {
        return true;
    }
    let w25 = ['h', '1'];
    proof {
        assert(w25@ =~= seq!['h', '1']);
    }
    if chars_eq(t, w25.as_slice()) {
        return true;
    }
    let w26 = ['h', '2'];
    proof {
        assert(w26@ =~= seq!['h', '2']);
    }
    if chars_eq(t, w26.as_slice()) {
        return true;
    }
    let w27 = ['h', '3'];
    proof {
        assert(w27@ =~= seq!['h', '3']);
    }
    if chars_eq(t, w27.as_slice()) {
        return true;
    }
    let w28 = ['h', '4'];
    proof {
        assert(w28@ =~= seq!['h', '4']);
    }
    if chars_eq(t, w28.as_slice()) {
        return true;
    }
    let w29 = ['h', '5'];
    proof {
        assert(w29@ =~= seq!['h', '5']);
    }
    if chars_eq(t, w29.as_slice()) {
        return true;
    }
    let w30 = ['h', '6'];
    proof {
        assert(w30@ =~= seq!['h', '6']);
    }
    if chars_eq(t, w30.as_slice()) {
        return true;
    }
    let w31 = ['h', 'e', 'a', 'd'];
    proof {
        assert(w31@ =~= seq!['h', 'e', 'a', 'd']);
    }
    if chars_eq(t, w31.as_slice()) {
        return true;
    }
    let w32 = ['h', 'e', 'a', 'd', 'e', 'r'];
    proof {
        assert(w32@ =~= seq!['h', 'e', 'a', 'd', 'e', 'r']);
    }
    if chars_eq(t, w32.as_slice()) {
        return true;
    }
    let w33 = ['h', 'r'];
    proof {
        assert(w33@ =~= seq!['h', 'r']);
    }
    if chars_eq(t, w33.as_slice()) {
        return true;
    }
    let w34 = ['h', 't', 'm', 'l'];
    proof {
        assert(w34@ =~= seq!['h', 't', 'm', 'l']);
    }
    if chars_eq(t, w34.as_slice()) {
        return true;
    }
    let w35 = ['i', 'f', 'r', 'a', 'm', 'e'];
    proof {
        assert(w35@ =~= seq!['i', 'f', 'r', 'a', 'm', 'e']);
    }
    if chars_eq(t, w35.as_slice()) {
        return true;
    }
    let w36 = ['l', 'e', 'g', 'e', 'n', 'd'];
    proof {
        assert(w36@ =~= seq!['l', 'e', 'g', 'e', 'n', 'd']);
    }
    if chars_eq(t, w36.as_slice()) {
        return true;
    }
    let w37 = ['l', 'i'];
    proof {
        assert(w37@ =~= seq!['l', 'i']);
    }
    if chars_eq(t, w37.as_slice()) {
        return true;
    }
    let w38 = ['l', 'i', 'n', 'k'];
    proof {
        assert(w38@ =~= seq!['l', 'i', 'n', 'k']);
    }
    if chars_eq(t, w38.as_slice()) {
        return true;
    }
    let w39 = ['m', 'a', 'i', 'n'];
    proof {
        assert(w39@ =~= seq!['m', 'a', 'i', 'n']);
    }
    if chars_eq(t, w39.as_slice()) {
        return true;
    }
    let w40 = ['m', 'e', 'n', 'u'];
    proof {
        assert(w40@ =~= seq!['m', 'e', 'n', 'u']);
    }
    if chars_eq(t, w40.as_slice()) {
        return true;
    }
    let w41 = ['m', 'e', 'n', 'u', 'i', 't', 'e', 'm'];
    proof {
        assert(w41@ =~= seq!['m', 'e', 'n', 'u', 'i', 't', 'e', 'm']);
    }
    if chars_eq(t, w41.as_slice()) {
        return true;
    }
    let w42 = ['n', 'a', 'v'];
    proof {
        assert(w42@ =~= seq!['n', 'a', 'v']);
    }
    if chars_eq(t, w42.as_slice()) {
        return true;
    }
    let w43 = ['n', 'o', 'f', 'r', 'a', 'm', 'e', 's'];
    proof {
        assert(w43@ =~= seq!['n', 'o', 'f', 'r', 'a', 'm', 'e', 's']);
    }
    if chars_eq(t, w43.as_slice()) {
        return true;
    }
    let w44 = ['o', 'l'];
    proof {
        assert(w44@ =~= seq!['o', 'l']);
    }
    if chars_eq(t, w44.as_slice()) {
        return true;
    }
    let w45 = ['o', 'p', 't', 'g', 'r', 'o', 'u', 'p'];
    proof {
        assert(w45@ =~= seq!['o', 'p', 't', 'g', 'r', 'o', 'u', 'p']);
    }
    if chars_eq(t, w45.as_slice()) {
        return true;
    }
    let w46 = ['o', 'p', 't', 'i', 'o', 'n'];
    proof {
        assert(w46@ =~= seq!['o', 'p', 't', 'i', 'o', 'n']);
    }
    if chars_eq(t, w46.as_slice()) {
        return true;
    }
    let w47 = ['p'];
    proof {
        assert(w47@ =~= seq!['p']);
    }
    if chars_eq(t, w47.as_slice()) {
        return true;
    }
    let w48 = ['p', 'a', 'r', 'a', 'm'];
    proof {
        assert(w48@ =~= seq!['p', 'a', 'r', 'a', 'm']);
    }
    if chars_eq(t, w48.as_slice()) {
        return true;
    }
    let w49 = ['s', 'e', 'c', 't', 'i', 'o', 'n'];
    proof {
        assert(w49@ =~= seq!['s', 'e', 'c', 't', 'i', 'o', 'n']);
    }
    if chars_eq(t, w49.as_slice()) {
        return true;
    }
    let w50 = ['s', 'o', 'u', 'r', 'c', 'e'];
    proof {
        assert(w50@ =~= seq!['s', 'o', 'u', 'r', 'c', 'e']);
    }
    if chars_eq(t, w50.as_slice()) {
        return true;
    }
    let w51 = ['s', 'u', 'm', 'm', 'a', 'r', 'y'];
    proof {
        assert(w51@ =~= seq!['s', 'u', 'm', 'm', 'a', 'r', 'y']);
    }
    if chars_eq(t, w51.as_slice()) {
        return true;
    }
    let w52 = ['t', 'a', 'b', 'l', 'e'];
    proof {
        assert(w52@ =~= seq!['t', 'a', 'b', 'l', 'e']);
    }
    if chars_eq(t, w52.as_slice()) {
        return true;
    }
    let w53 = ['t', 'b', 'o', 'd', 'y'];
    proof {
        assert(w53@ =~= seq!['t', 'b', 'o', 'd', 'y']);
    }
    if chars_eq(t, w53.as_slice()) {
        return true;
    }
    let w54 = ['t', 'd'];
    proof {
        assert(w54@ =~= seq!['t', 'd']);
    }
    if chars_eq(t, w54.as_slice()) {
        return true;
    }
    let w55 = ['t', 'f', 'o', 'o', 't'];
    proof {
        assert(w55@ =~= seq!['t', 'f', 'o', 'o', 't']);
    }
    if chars_eq(t, w55.as_slice()) {
        return true;
    }
    let w56 = ['t', 'h'];
    proof {
        assert(w56@ =~= seq!['t', 'h']);
    }
    if chars_eq(t, w56.as_slice()) {
        return true;
    }
    let w57 = ['t', 'h', 'e', 'a', 'd'];
    proof {
        assert(w57@ =~= seq!['t', 'h', 'e', 'a', 'd']);
    }
    if chars_eq(t, w57.as_slice()) {
        return true;
    }
    let w58 = ['t', 'i', 't', 'l', 'e'];
    proof {
        assert(w58@ =~= seq!['t', 'i', 't', 'l', 'e']);
    }
    if chars_eq(t, w58.as_slice()) {
        return true;
    }
    let w59 = ['t', 'r'];
    proof {
        assert(w59@ =~= seq!['t', 'r']);
    }
    if chars_eq(t, w59.as_slice()) {
        return true;
    }
    let w60 = ['t', 'r', 'a', 'c', 'k'];
    proof {
        assert(w60@ =~= seq!['t', 'r', 'a', 'c', 'k']);
    }
    if chars_eq(t, w60.as_slice()) {
        return true;
    }
    let w61 = ['u', 'l'];
    proof {
        assert(w61@ =~= seq!['u', 'l']);
    }
    if chars_eq(t, w61.as_slice()) {
        return true;
    }
    false
}

/// The tag names from address to div of the CommonMark list open HTML
/// blocks of the sixth kind.
pub proof fn lemma_block_tag_names_address_to_div()
    ensures
        is_block_tag_name(seq!['a', 'd', 'd', 'r', 'e', 's', 's']),
        is_block_tag_name(seq!['a', 'r', 't', 'i', 'c', 'l', 'e']),
        is_block_tag_name(seq!['a', 's', 'i', 'd', 'e']),
        is_block_tag_name(seq!['b', 'a', 's', 'e']),
        is_block_tag_name(seq!['b', 'a', 's', 'e', 'f', 'o', 'n', 't']),
        is_block_tag_name(seq!['b', 'l', 'o', 'c', 'k', 'q', 'u', 'o', 't', 'e']),
        is_block_tag_name(seq!['b', 'o', 'd', 'y']),
        is_block_tag_name(seq!['c', 'a', 'p', 't', 'i', 'o', 'n']),
        is_block_tag_name(seq!['c', 'e', 'n', 't', 'e', 'r']),
        is_block_tag_name(seq!['c', 'o', 'l']),
        is_block_tag_name(seq!['c', 'o', 'l', 'g', 'r', 'o', 'u', 'p']),
        is_block_tag_name(seq!['d', 'd']),
        is_block_tag_name(seq!['d', 'e', 't', 'a', 'i', 'l', 's']),
        is_block_tag_name(seq!['d', 'i', 'a', 'l', 'o', 'g']),
        is_block_tag_name(seq!['d', 'i', 'r']),
        is_block_tag_name(seq!['d', 'i', 'v']),
{
}

/// The tag names from dl to head of the CommonMark list open HTML
/// blocks of the sixth kind.
pub proof fn lemma_block_tag_names_dl_to_head()
    ensures
        is_block_tag_name(seq!['d', 'l']),
        is_block_tag_name(seq!['d', 't']),
        is_block_tag_name(seq!['f', 'i', 'e', 'l', 'd', 's', 'e', 't']),
        is_block_tag_name(seq!['f', 'i', 'g', 'c', 'a', 'p', 't', 'i', 'o', 'n']),
        is_block_tag_name(seq!['f', 'i', 'g', 'u', 'r', 'e']),
        is_block_tag_name(seq!['f', 'o', 'o', 't', 'e', 'r']),
        is_block_tag_name(seq!['f', 'o', 'r', 'm']),
        is_block_tag_name(seq!['f', 'r', 'a', 'm', 'e']),
        is_block_tag_name(seq!['f', 'r', 'a', 'm', 'e', 's', 'e', 't']),
        is_block_tag_name(seq!['h', '1']),
        is_block_tag_name(seq!['h', '2']),
        is_block_tag_name(seq!['h', '3']),
        is_block_tag_name(seq!['h', '4']),
        is_block_tag_name(seq!['h', '5']),
        is_block_tag_name(seq!['h', '6']),
        is_block_tag_name(seq!['h', 'e', 'a', 'd']),
{
}

/// The tag names from header to p of the CommonMark list open HTML
/// blocks of the sixth kind.
pub proof fn lemma_block_tag_names_header_to_p()
    ensures
        is_block_tag_name(seq!['h', 'e', 'a', 'd', 'e', 'r']),
        is_block_tag_name(seq!['h', 'r']),
        is_block_tag_name(seq!['h', 't', 'm', 'l']),
        is_block_tag_name(seq!['i', 'f', 'r', 'a', 'm', 'e']),
        is_block_tag_name(seq!['l', 'e', 'g', 'e', 'n', 'd']),
        is_block_tag_name(seq!['l', 'i']),
        is_block_tag_name(seq!['l', 'i', 'n', 'k']),
        is_block_tag_name(seq!['m', 'a', 'i', 'n']),
        is_block_tag_name(seq!['m', 'e', 'n', 'u']),
        is_block_tag_name(seq!['m', 'e', 'n', 'u', 'i', 't', 'e', 'm']),
        is_block_tag_name(seq!['n', 'a', 'v']),
        is_block_tag_name(seq!['n', 'o', 'f', 'r', 'a', 'm', 'e', 's']),
        is_block_tag_name(seq!['o', 'l']),
        is_block_tag_name(seq!['o', 'p', 't', 'g', 'r', 'o', 'u', 'p']),
        is_block_tag_name(seq!['o', 'p', 't', 'i', 'o', 'n']),
        is_block_tag_name(seq!['p']),
{
}

/// The tag names from param to ul of the CommonMark list open HTML
/// blocks of the sixth kind.
pub proof fn lemma_block_tag_names_param_to_ul()
    ensures
        is_block_tag_name(seq!['p', 'a', 'r', 'a', 'm']),
        is_block_tag_name(seq!['s', 'e', 'c', 't', 'i', 'o', 'n']),
        is_block_tag_name(seq!['s', 'o', 'u', 'r', 'c', 'e']),
        is_block_tag_name(seq!['s', 'u', 'm', 'm', 'a', 'r', 'y']),
        is_block_tag_name(seq!['t', 'a', 'b', 'l', 'e']),
        is_block_tag_name(seq!['t', 'b', 'o', 'd', 'y']),
        is_block_tag_name(seq!['t', 'd']),
        is_block_tag_name(seq!['t', 'f', 'o', 'o', 't']),
        is_block_tag_name(seq!['t', 'h']),
        is_block_tag_name(seq!['t', 'h', 'e', 'a', 'd']),
        is_block_tag_name(seq!['t', 'i', 't', 'l', 'e']),
        is_block_tag_name(seq!['t', 'r']),
        is_block_tag_name(seq!['t', 'r', 'a', 'c', 'k']),
        is_block_tag_name(seq!['u', 'l']),
{
}

/// The tag names pre, script, style and textarea open HTML blocks of the
/// first kind, and none of them one of the sixth kind.
pub proof fn lemma_raw_tag_names()
    ensures
        is_raw_tag_name(seq!['p', 'r', 'e']),
        is_raw_tag_name(seq!['s', 'c', 'r', 'i', 'p', 't']),
        is_raw_tag_name(seq!['s', 't', 'y', 'l', 'e']),
        is_raw_tag_name(seq!['t', 'e', 'x', 't', 'a', 'r', 'e', 'a']),
        !is_block_tag_name(seq!['p', 'r', 'e']),
        !is_block_tag_name(seq!['s', 'c', 'r', 'i', 'p', 't']),
        !is_block_tag_name(seq!['s', 't', 'y', 'l', 'e']),
        !is_block_tag_name(seq!['t', 'e', 'x', 't', 'a', 'r', 'e', 'a']),
{
}

} // verus!
