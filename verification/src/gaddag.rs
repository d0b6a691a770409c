use vstd::prelude::*;

use vstd::string::StrSliceExecFns;
use vstd::string::StringExecFns;

verus! {

/// The bidirectional (GADDAG) expansion of `w` at split position `i`, with
/// `1 <= i <= w.len()`: the first `i` characters reversed, the separator
/// `+`, then the rest of the word.
pub open spec fn gaddag_variant(w: Seq<char>, i: int) -> Seq<char> {
    w.subrange(0, i).reverse() + seq!['+'] + w.subrange(i, w.len() as int)
}

/// Each expansion variant can be taken back to the original word: its
/// part before the separator, reversed, concatenated with its part after
/// the separator, is the word itself.
pub proof fn lemma_gaddag_reconstruct(w: Seq<char>, i: int)
    requires
        1 <= i <= w.len(),
    ensures
        gaddag_variant(w, i).len() == w.len() + 1,
        gaddag_variant(w, i)[i] == '+',
        gaddag_variant(w, i).subrange(0, i).reverse() + gaddag_variant(w, i).subrange(
            i + 1,
            gaddag_variant(w, i).len() as int,
        ) == w,
{
    let v = gaddag_variant(w, i);
    let pre = v.subrange(0, i);
    assert(pre =~= w.subrange(0, i).reverse());
    assert forall|m: int| 0 <= m < i implies pre.reverse()[m] == w[m] by {
        assert(pre.reverse()[m] == pre[i - 1 - m]);
        assert(pre[i - 1 - m] == w.subrange(0, i).reverse()[i - 1 - m]);
        assert(w.subrange(0, i).reverse()[i - 1 - m] == w.subrange(0, i)[m]);
    }
    assert(pre.reverse() + v.subrange(i + 1, v.len() as int) =~= w);
}

/// Expand a word for a bidirectional dictionary: one variant per split
/// position `i` in `1..=len`, each being the reversed prefix of length
/// `i`, the separator `+`, and the remaining suffix.
pub fn gaddag(word: String) -> (r: Vec<String>)
    ensures
        r@.len() == word@.len(),
        forall|i: int| 0 <= i < r@.len() ==> (#[trigger] r@[i])@ == gaddag_variant(word@, i + 1),
{
    let n = word.as_str().unicode_len();
    let mut output: Vec<String> = Vec::new();

    for i0 in 0..n
        invariant
            n == word@.len(),
            output@.len() == i0,
            forall|m: int| 0 <= m < i0 ==> (#[trigger] output@[m])@ == gaddag_variant(word@, m + 1),
    {
        let i = i0 + 1;
        let mut variant = String::new();
        // reversed prefix of length i
        for j in 0..i
            invariant
                n == word@.len(),
                1 <= i <= n,
                variant@.len() == j,
                forall|m: int| 0 <= m < j ==> variant@[m] == word@[i - 1 - m],
        {
            let piece = word.as_str().substring_char(i - 1 - j, i - j);
            variant.append(piece);
        }
        proof {
            assert(variant@ =~= word@.subrange(0, i as int).reverse());
        }
        // separator
        let sep = "+";
        proof {
            reveal_strlit("+");
            assert(sep@ =~= seq!['+']);
        }
        variant.append(sep);
        // suffix from the split position on
        let suffix = word.as_str().substring_char(i, n);
        variant.append(suffix);
        proof {
            assert(variant@ =~= gaddag_variant(word@, i as int));
        }
        output.push(variant);
    }
    output
}

} // verus!
