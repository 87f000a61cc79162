//! How a UEFI variable's attribute bits are shown: the abbreviations of
//! the set attributes, space-separated, or `-` when none is set.
use vstd::prelude::*;

use crate::text::{push_char, push_str};

verus! {

/// The variable survives a reset.
pub const NON_VOLATILE: u32 = 0x01;

/// The variable is readable while boot services run.
pub const BOOTSERVICE_ACCESS: u32 = 0x02;

/// The variable is readable at runtime, after boot services exit.
pub const RUNTIME_ACCESS: u32 = 0x04;

/// The variable is a hardware error record.
pub const HARDWARE_ERROR_RECORD: u32 = 0x08;

/// `words` joined with single spaces.
pub open spec fn join(words: Seq<Seq<char>>) -> Seq<char>
    decreases words.len(),
{
    if words.len() == 0 {
        Seq::empty()
    } else if words.len() == 1 {
        words[0]
    } else {
        join(words.drop_last()) + seq![' '] + words.last()
    }
}

/// `words`, followed by `word` when `flag` is set in `bits`.
pub open spec fn with_flag(words: Seq<Seq<char>>, bits: u32, flag: u32, word: Seq<char>) -> Seq<Seq<char>> {
    if bits & flag != 0 {
        words.push(word)
    } else {
        words
    }
}

/// The abbreviations of the attributes set in `bits`, in the order NV,
/// BS, RT, HR.
pub open spec fn attribute_words(bits: u32) -> Seq<Seq<char>> {
    let w0 = with_flag(Seq::empty(), bits, NON_VOLATILE, seq!['N', 'V']);
    let w1 = with_flag(w0, bits, BOOTSERVICE_ACCESS, seq!['B', 'S']);
    let w2 = with_flag(w1, bits, RUNTIME_ACCESS, seq!['R', 'T']);
    with_flag(w2, bits, HARDWARE_ERROR_RECORD, seq!['H', 'R'])
}

/// The attribute column for `bits`.
pub open spec fn attribute_text(bits: u32) -> Seq<char> {
    if attribute_words(bits).len() == 0 {
        seq!['-']
    } else {
        join(attribute_words(bits))
    }
}

/// Each attribute's abbreviation is shown exactly when its bit is set:
/// `NV` for non-volatile, `BS` for boot-service access, `RT` for runtime
/// access, `HR` for a hardware error record, in that order and at most once
/// each; and the column is `-` exactly when none of the four is set.
pub proof fn lemma_attribute_words(bits: u32)
    ensures
        attribute_words(bits).contains(seq!['N', 'V']) <==> bits & NON_VOLATILE != 0,
        attribute_words(bits).contains(seq!['B', 'S']) <==> bits & BOOTSERVICE_ACCESS != 0,
        attribute_words(bits).contains(seq!['R', 'T']) <==> bits & RUNTIME_ACCESS != 0,
        attribute_words(bits).contains(seq!['H', 'R']) <==> bits & HARDWARE_ERROR_RECORD != 0,
        attribute_words(bits).no_duplicates(),
        attribute_words(bits).len() <= 4,
        bits & NON_VOLATILE != 0 ==> attribute_words(bits)[0] == seq!['N', 'V'],
        (attribute_text(bits) == seq!['-']) <==> (bits & NON_VOLATILE == 0 && bits & BOOTSERVICE_ACCESS == 0
            && bits & RUNTIME_ACCESS == 0 && bits & HARDWARE_ERROR_RECORD == 0),
{
    let nv = seq!['N', 'V'];
    let bs = seq!['B', 'S'];
    let rt = seq!['R', 'T'];
    let hr = seq!['H', 'R'];
    assert(nv[0] == 'N' && bs[0] == 'B' && rt[0] == 'R' && hr[0] == 'H');
    let w0 = with_flag(Seq::empty(), bits, NON_VOLATILE, nv);
    let w1 = with_flag(w0, bits, BOOTSERVICE_ACCESS, bs);
    let w2 = with_flag(w1, bits, RUNTIME_ACCESS, rt);
    let w3 = with_flag(w2, bits, HARDWARE_ERROR_RECORD, hr);
    assert(forall|i: int| 0 <= i < w3.len() ==> #[trigger] w3[i] == nv || w3[i] == bs || w3[i] == rt || w3[i] == hr);
    assert(w0.contains(nv) <==> bits & NON_VOLATILE != 0) by {
        if bits & NON_VOLATILE != 0 { assert(w0[0] == nv); }
    }
    assert(forall|i: int| 0 <= i < w0.len() ==> #[trigger] w0[i] == nv);
    assert(forall|i: int| 0 <= i < w1.len() ==> #[trigger] w1[i] == nv || w1[i] == bs);
    assert(forall|i: int| 0 <= i < w2.len() ==> #[trigger] w2[i] == nv || w2[i] == bs || w2[i] == rt);
    assert(w1.contains(nv) <==> bits & NON_VOLATILE != 0) by {
        if w0.contains(nv) { let k = choose|k: int| 0 <= k < w0.len() && w0[k] == nv; assert(w1[k] == nv); }
    }
    assert(w1.contains(bs) <==> bits & BOOTSERVICE_ACCESS != 0) by {
        if bits & BOOTSERVICE_ACCESS != 0 { assert(w1[w1.len() - 1] == bs); }
    }
    assert(w2.contains(nv) <==> bits & NON_VOLATILE != 0) by {
        if w1.contains(nv) { let k = choose|k: int| 0 <= k < w1.len() && w1[k] == nv; assert(w2[k] == nv); }
    }
    assert(w2.contains(bs) <==> bits & BOOTSERVICE_ACCESS != 0) by {
        if w1.contains(bs) { let k = choose|k: int| 0 <= k < w1.len() && w1[k] == bs; assert(w2[k] == bs); }
    }
    assert(w2.contains(rt) <==> bits & RUNTIME_ACCESS != 0) by {
        if bits & RUNTIME_ACCESS != 0 { assert(w2[w2.len() - 1] == rt); }
    }
    assert(w3.contains(nv) <==> bits & NON_VOLATILE != 0) by {
        if w2.contains(nv) { let k = choose|k: int| 0 <= k < w2.len() && w2[k] == nv; assert(w3[k] == nv); }
    }
    assert(w3.contains(bs) <==> bits & BOOTSERVICE_ACCESS != 0) by {
        if w2.contains(bs) { let k = choose|k: int| 0 <= k < w2.len() && w2[k] == bs; assert(w3[k] == bs); }
    }
    assert(w3.contains(rt) <==> bits & RUNTIME_ACCESS != 0) by {
        if w2.contains(rt) { let k = choose|k: int| 0 <= k < w2.len() && w2[k] == rt; assert(w3[k] == rt); }
    }
    assert(w3.contains(hr) <==> bits & HARDWARE_ERROR_RECORD != 0) by {
        if bits & HARDWARE_ERROR_RECORD != 0 { assert(w3[w3.len() - 1] == hr); }
    }
    if bits & NON_VOLATILE != 0 {
        assert(w3[0] == nv);
    }
    if attribute_words(bits).len() != 0 {
        let ws = attribute_words(bits);
        lemma_join_len(ws);
        assert(attribute_text(bits).len() >= 2);
    }
}

/// Joining words of at least two characters each gives at least as many
/// characters as the first word has.
proof fn lemma_join_len(words: Seq<Seq<char>>)
    requires
        words.len() >= 1,
        forall|i: int| 0 <= i < words.len() ==> (#[trigger] words[i]).len() >= 2,
    ensures
        join(words).len() >= 2,
    decreases words.len(),
{
    if words.len() > 1 {
        lemma_join_len(words.drop_last());
    }
}

/// Appends `word` to the joined text of `words`.
fn push_word(s: &mut String, word: &str, first: bool, Ghost(words): Ghost<Seq<Seq<char>>>)
    requires
        old(s)@ == join(words),
        first == (words.len() == 0),
    ensures
        final(s)@ == join(words.push(word@)),
{
    if !first {
        push_char(s, ' ');
    }
    push_str(s, word);
    proof {
        let w = words.push(word@);
        assert(w.drop_last() =~= words);
        if words.len() == 0 {
            assert(old(s)@ =~= Seq::<char>::empty());
            assert(final(s)@ =~= word@);
        }
    }
}

/// Formats the attribute bits of a variable, e.g. `NV BS RT`.
pub fn format_attributes(bits: u32) -> (r: String)
    ensures
        r@ == attribute_text(bits),
{
    let mut s = String::new();
    let mut first = true;
    let ghost mut words: Seq<Seq<char>> = Seq::empty();
    proof {
        reveal_strlit("NV");
        reveal_strlit("BS");
        reveal_strlit("RT");
        reveal_strlit("HR");
        reveal_strlit("-");
        assert(s@ =~= join(words));
    }
    assert(first == (words.len() == 0));
    if bits & NON_VOLATILE != 0 {
        push_word(&mut s, "NV", first, Ghost(words));
        first = false;
        proof {
            words = words.push("NV"@);
        }
    }
    if bits & BOOTSERVICE_ACCESS != 0 {
        push_word(&mut s, "BS", first, Ghost(words));
        first = false;
        proof {
            words = words.push("BS"@);
        }
    }
    if bits & RUNTIME_ACCESS != 0 {
        push_word(&mut s, "RT", first, Ghost(words));
        first = false;
        proof {
            words = words.push("RT"@);
        }
    }
    if bits & HARDWARE_ERROR_RECORD != 0 {
        push_word(&mut s, "HR", first, Ghost(words));
        first = false;
        proof {
            words = words.push("HR"@);
        }
    }
    proof {
        assert("NV"@ =~= seq!['N', 'V']);
        assert("BS"@ =~= seq!['B', 'S']);
        assert("RT"@ =~= seq!['R', 'T']);
        assert("HR"@ =~= seq!['H', 'R']);
        assert("-"@ =~= seq!['-']);
        assert(words =~= attribute_words(bits));
    }
    if first {
        push_str(&mut s, "-");
    }
    s
}

} // verus!
