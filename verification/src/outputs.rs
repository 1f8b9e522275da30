//! Where the outputs of one input file are written.
//!
//! Every input file has a directory of its own in the output tree, at the
//! place and under the name that the file has in the input tree. The
//! unchanged image and the variants lie in that directory, so that no two
//! outputs of a run share a path, whatever the files are called.

use crate::text::texts;
use vstd::prelude::*;
use vstd::string::*;

verus! {

/// Where `c` last occurs in `text`.
pub open spec fn last_position(text: Seq<char>, c: char) -> Option<int>
    decreases text.len(),
{
    if text.len() == 0 {
        None
    } else if text.last() == c {
        Some(text.len() - 1)
    } else {
        last_position(text.drop_last(), c)
    }
}

/// A file name without its extension: what stands before the last dot,
/// or the whole name where it has no dot but the one that it may start with.
pub open spec fn stem_of(name: Seq<char>) -> Seq<char> {
    match last_position(name, '.') {
        Some(i) => if i > 0 {
            name.take(i)
        } else {
            name
        },
        None => name,
    }
}

/// The name that outputs are called after: the last component of the
/// relative path of the input, or `output` for a path without components.
pub open spec fn called_after(relative: Seq<Seq<char>>) -> Seq<char> {
    if relative.len() == 0 {
        "output"@
    } else {
        relative.last()
    }
}

/// The file name of the unchanged image of the input called `name`.
pub open spec fn unchanged_leaf(name: Seq<char>) -> Seq<char> {
    stem_of(name) + ".png"@
}

/// The file name of the variant with the suffix `suffix` of the input called
/// `name`.
pub open spec fn variant_leaf(name: Seq<char>, suffix: Seq<char>) -> Seq<char> {
    stem_of(name) + seq!['_'] + suffix + ".png"@
}

/// The path of the unchanged image of the input at `relative`, below the
/// output root.
pub open spec fn unchanged_path(relative: Seq<Seq<char>>) -> Seq<Seq<char>> {
    relative.push(unchanged_leaf(called_after(relative)))
}

/// The path of the variant with the suffix `suffix` of the input at
/// `relative`, below the output root.
pub open spec fn output_path(relative: Seq<Seq<char>>, suffix: Seq<char>) -> Seq<Seq<char>> {
    relative.push(variant_leaf(called_after(relative), suffix))
}

/// Variants of different inputs, and variants of one input with different
/// suffixes, have different paths.
pub proof fn lemma_outputs_differ(
    a: Seq<Seq<char>>,
    s: Seq<char>,
    b: Seq<Seq<char>>,
    t: Seq<char>,
)
    requires
        a != b || s != t,
    ensures
        output_path(a, s) != output_path(b, t),
{
    if output_path(a, s) == output_path(b, t) {
        let x = variant_leaf(called_after(a), s);
        let y = variant_leaf(called_after(b), t);
        assert(a.push(x).drop_last() =~= a);
        assert(b.push(y).drop_last() =~= b);
        assert(a.push(x).last() == x);
        assert(b.push(y).last() == y);
        assert(a == b);
        let head = stem_of(called_after(a)) + seq!['_'];
        assert(x == head + s + ".png"@);
        assert(y == head + t + ".png"@);
        assert(s.len() == t.len());
        assert forall|i: int| 0 <= i < s.len() implies s[i] == t[i] by {
            assert(x[head.len() + i] == s[i]);
            assert(y[head.len() + i] == t[i]);
        }
        assert(s =~= t);
    }
}

/// The unchanged images of different inputs have different paths, and none
/// has the path of a variant.
pub proof fn lemma_unchanged_differs(a: Seq<Seq<char>>, b: Seq<Seq<char>>, t: Seq<char>)
    ensures
        a != b ==> unchanged_path(a) != unchanged_path(b),
        unchanged_path(a) != output_path(b, t),
{
    let x = unchanged_leaf(called_after(a));
    assert(a.push(x).drop_last() =~= a);
    assert(a.push(x).last() == x);
    let y = unchanged_leaf(called_after(b));
    assert(b.push(y).drop_last() =~= b);
    let z = variant_leaf(called_after(b), t);
    assert(b.push(z).drop_last() =~= b);
    assert(b.push(z).last() == z);
    if unchanged_path(a) == output_path(b, t) {
        assert(a == b);
        assert(x.len() != z.len());
    }
}

/// A character that does not occur after position `from` and occurs just
/// before it is last found there; one that does not occur is not found.
proof fn lemma_last_position(text: Seq<char>, c: char, from: int)
    requires
        0 <= from <= text.len(),
        forall|j: int| from <= j < text.len() ==> text[j] != c,
        from > 0 ==> text[from - 1] == c,
    ensures
        last_position(text, c) == if from > 0 {
            Some(from - 1)
        } else {
            None
        },
    decreases text.len(),
{
    if text.len() > 0 && from < text.len() {
        lemma_last_position(text.drop_last(), c, from);
    }
}

/// A file name without its extension.
pub fn file_stem(name: &str) -> (stem: &str)
    ensures
        stem@ == stem_of(name@),
{
    let len = name.unicode_len();
    let mut i: usize = len;
    while i > 0
        invariant
            i <= len,
            len == name@.len(),
            forall|j: int| i <= j < len ==> name@[j] != '.',
        decreases i,
    {
        if name.get_char(i - 1) == '.' {
            proof {
                lemma_last_position(name@, '.', i as int);
            }
            if i - 1 > 0 {
                return name.substring_char(0, i - 1);
            } else {
                return name;
            }
        }
        i -= 1;
    }
    proof {
        lemma_last_position(name@, '.', 0);
    }
    name
}

/// The name that the outputs of the input at `relative` are called after.
fn name_of(relative: &Vec<String>) -> (name: &str)
    ensures
        name@ == called_after(texts(relative@)),
{
    if relative.len() == 0 {
        "output"
    } else {
        relative[relative.len() - 1].as_str()
    }
}

/// The components of `relative` and `leaf` after them.
fn below(relative: &Vec<String>, leaf: String) -> (out: Vec<String>)
    ensures
        texts(out@) == texts(relative@).push(leaf@),
{
    let mut out: Vec<String> = Vec::new();
    let mut i: usize = 0;
    while i < relative.len()
        invariant
            i <= relative@.len(),
            out@.len() == i,
            forall|j: int| 0 <= j < i ==> (#[trigger] out@[j])@ == relative@[j]@,
        decreases relative@.len() - i,
    {
        out.push(relative[i].clone());
        i += 1;
    }
    out.push(leaf);
    assert(texts(out@) =~= texts(relative@).push(leaf@));
    out
}

/// The path of the unchanged image of the input at `relative`, below the
/// output root.
pub fn unchanged_components(relative: &Vec<String>) -> (out: Vec<String>)
    ensures
        texts(out@) == unchanged_path(texts(relative@)),
{
    let mut leaf = file_stem(name_of(relative)).to_owned();
    leaf.append(".png");
    below(relative, leaf)
}

/// The path of the variant with the suffix `suffix` of the input at
/// `relative`, below the output root.
pub fn output_components(relative: &Vec<String>, suffix: &str) -> (out: Vec<String>)
    ensures
        texts(out@) == output_path(texts(relative@), suffix@),
{
    let mut leaf = file_stem(name_of(relative)).to_owned();
    leaf.append("_");
    leaf.append(suffix);
    leaf.append(".png");
    proof {
        reveal_strlit("_");
        assert("_"@ =~= seq!['_']);
    }
    below(relative, leaf)
}

} // verus!
