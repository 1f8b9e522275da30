//! Relative paths whose directories are named after image dimensions, such
//! as `16x16/stone.png`, and the rescaling of those names.

use crate::text::{str_equal, texts};
use vstd::arithmetic::div_mod::lemma_div_multiples_vanish;
use vstd::prelude::*;
use vstd::string::*;

verus! {

/// The pixel format that images are converted to.
#[derive(Clone, Copy, Debug, PartialEq, Eq)]
pub enum ConversionFormat {
    RGBA,
}

/// Whether dimensions are multiplied or divided.
#[derive(Clone, Copy, Debug, PartialEq, Eq)]
pub enum ScaleDirection {
    Up,
    Down,
}

/// Whether `c` is a decimal digit.
pub open spec fn is_digit(c: char) -> bool {
    '0' <= c && c <= '9'
}

/// The number that a string of decimal digits stands for.
pub open spec fn decimal_value(digits: Seq<char>) -> int
    decreases digits.len(),
{
    if digits.len() == 0 {
        0
    } else {
        decimal_value(digits.drop_last()) * 10 + (digits.last() as int - '0' as int)
    }
}

/// Whether `text` holds decimal digits only.
pub open spec fn all_digits(text: Seq<char>) -> bool {
    forall|i: int| 0 <= i < text.len() ==> is_digit(#[trigger] text[i])
}

/// A text without the `+` that it may start with.
pub open spec fn without_plus(text: Seq<char>) -> Seq<char> {
    if text.len() > 0 && text[0] == '+' {
        text.drop_first()
    } else {
        text
    }
}

/// What a text parses to as a `u32`: an optional `+`, then at least one
/// decimal digit and nothing else, with a value that fits.
pub open spec fn parsed_u32(text: Seq<char>) -> Option<u32> {
    let digits = without_plus(text);
    if digits.len() > 0 && all_digits(digits) && decimal_value(digits) <= u32::MAX {
        Some(decimal_value(digits) as u32)
    } else {
        None
    }
}

/// The decimal digits of `n`, without leading zeros.
pub open spec fn decimal_text(n: nat) -> Seq<char>
    decreases n,
{
    if n < 10 {
        seq![(n + '0' as nat) as char]
    } else {
        decimal_text(n / 10).push(((n % 10) + '0' as nat) as char)
    }
}

/// Where `c` first occurs in `text`.
pub open spec fn first_position(text: Seq<char>, c: char) -> Option<int>
    decreases text.len(),
{
    if text.len() == 0 {
        None
    } else if text[0] == c {
        Some(0)
    } else {
        match first_position(text.drop_first(), c) {
            Some(i) => Some(i + 1),
            None => None,
        }
    }
}

/// The dimensions that a path component names: the numbers on both sides of
/// its first `x`, where both parse.
pub open spec fn dimensions_of(component: Seq<char>) -> Option<(u32, u32)> {
    match first_position(component, 'x') {
        Some(i) => match (parsed_u32(component.take(i)), parsed_u32(component.skip(i + 1))) {
            (Some(width), Some(height)) => Some((width, height)),
            _ => None,
        },
        None => None,
    }
}

/// One dimension after scaling.
pub open spec fn scaled(n: u32, scale_factor: u32, direction: ScaleDirection) -> int
    recommends
        direction == ScaleDirection::Down ==> scale_factor != 0,
{
    match direction {
        ScaleDirection::Up => n * scale_factor,
        ScaleDirection::Down => n as int / scale_factor as int,
    }
}

/// Whether a component can be rescaled: it names no dimensions, or both
/// scaled dimensions exist and fit in 32 bits.
pub open spec fn component_scalable(
    component: Seq<char>,
    scale_factor: u32,
    direction: ScaleDirection,
) -> bool {
    match dimensions_of(component) {
        Some((width, height)) => match direction {
            ScaleDirection::Up => width * scale_factor <= u32::MAX && height * scale_factor
                <= u32::MAX,
            ScaleDirection::Down => scale_factor != 0,
        },
        None => true,
    }
}

/// The name that stands for a pair of dimensions: width and height in
/// decimal, with an `x` between them.
pub open spec fn dimension_text(width: nat, height: nat) -> Seq<char> {
    decimal_text(width) + seq!['x'] + decimal_text(height)
}

/// A component after rescaling: one that names dimensions names the scaled
/// dimensions, any other stays as it is.
pub open spec fn scaled_component(
    component: Seq<char>,
    scale_factor: u32,
    direction: ScaleDirection,
) -> Seq<char> {
    match dimensions_of(component) {
        Some((width, height)) => dimension_text(
            scaled(width, scale_factor, direction) as nat,
            scaled(height, scale_factor, direction) as nat,
        ),
        None => component,
    }
}

/// Whether every component of a path can be rescaled.
pub open spec fn path_scalable(
    path: Seq<Seq<char>>,
    scale_factor: u32,
    direction: ScaleDirection,
) -> bool {
    forall|i: int|
        0 <= i < path.len() ==> component_scalable(#[trigger] path[i], scale_factor, direction)
}

/// A path after rescaling, component by component.
pub open spec fn scaled_path(
    path: Seq<Seq<char>>,
    scale_factor: u32,
    direction: ScaleDirection,
) -> Seq<Seq<char>> {
    Seq::new(path.len(), |i: int| scaled_component(path[i], scale_factor, direction))
}

/// The components of each path of `paths`.
pub open spec fn path_texts(paths: Seq<Vec<String>>) -> Seq<Seq<Seq<char>>> {
    Seq::new(paths.len(), |i: int| texts(paths[i]@))
}

/// Whether every path of a set can be rescaled.
pub open spec fn all_scalable(
    paths: Seq<Seq<Seq<char>>>,
    scale_factor: u32,
    direction: ScaleDirection,
) -> bool {
    forall|i: int|
        0 <= i < paths.len() ==> path_scalable(#[trigger] paths[i], scale_factor, direction)
}

/// The rescaled paths of `paths` in order, each once, where it first
/// occurs.
pub open spec fn scaled_set(
    paths: Seq<Seq<Seq<char>>>,
    scale_factor: u32,
    direction: ScaleDirection,
) -> Seq<Seq<Seq<char>>>
    decreases paths.len(),
{
    if paths.len() == 0 {
        Seq::empty()
    } else {
        let before = scaled_set(paths.drop_last(), scale_factor, direction);
        let path = scaled_path(paths.last(), scale_factor, direction);
        if before.contains(path) {
            before
        } else {
            before.push(path)
        }
    }
}

/// Adding digits never makes the number smaller.
proof fn lemma_decimal_prefix(digits: Seq<char>, k: int)
    requires
        all_digits(digits),
        0 <= k <= digits.len(),
    ensures
        0 <= decimal_value(digits.take(k)) <= decimal_value(digits),
    decreases digits.len() - k,
{
    if k == digits.len() {
        assert(digits.take(k) =~= digits);
        lemma_decimal_nonnegative(digits);
    } else {
        lemma_decimal_prefix(digits, k + 1);
        assert(digits.take(k + 1).drop_last() =~= digits.take(k));
        assert(is_digit(digits[k]));
        lemma_decimal_nonnegative(digits.take(k));
    }
}

/// A string of digits stands for no negative number.
proof fn lemma_decimal_nonnegative(digits: Seq<char>)
    requires
        all_digits(digits),
    ensures
        0 <= decimal_value(digits),
    decreases digits.len(),
{
    if digits.len() > 0 {
        assert(is_digit(digits.last()));
        lemma_decimal_nonnegative(digits.drop_last());
    }
}

/// Reads `text` as a `u32` in decimal.
pub fn parse_u32(text: &str) -> (parsed: Option<u32>)
    ensures
        parsed == parsed_u32(text@),
{
    let len = text.unicode_len();
    let start: usize = if len > 0 && text.get_char(0) == '+' {
        1
    } else {
        0
    };
    let ghost digits = without_plus(text@);
    if start == len {
        return None;
    }
    let mut value: u64 = 0;
    let mut i: usize = start;
    proof {
        assert(digits.take(0) =~= Seq::<char>::empty());
    }
    while i < len
        invariant
            start <= i <= len,
            len == text@.len(),
            digits == without_plus(text@),
            digits.len() == len - start,
            forall|j: int| 0 <= j < digits.len() ==> digits[j] == text@[j + start],
            all_digits(digits.take(i - start)),
            value == decimal_value(digits.take(i - start)),
            value <= u32::MAX,
        decreases len - i,
    {
        let c = text.get_char(i);
        let ghost k = i - start;
        proof {
            assert(digits.take(k + 1).drop_last() =~= digits.take(k));
            assert(digits.take(k + 1).last() == c);
        }
        if c < '0' || c > '9' {
            assert(!is_digit(digits[k]));
            return None;
        }
        value = value * 10 + (c as u64 - '0' as u64);
        proof {
            assert forall|j: int| 0 <= j < digits.take(k + 1).len() implies is_digit(
                #[trigger] digits.take(k + 1)[j],
            ) by {
                if j < k {
                    assert(is_digit(digits.take(k)[j]));
                }
            }
        }
        if value > u32::MAX as u64 {
            proof {
                if all_digits(digits) {
                    lemma_decimal_prefix(digits, k + 1);
                }
            }
            return None;
        }
        i += 1;
    }
    proof {
        assert(digits.take(i - start) =~= digits);
    }
    Some(value as u32)
}

/// The text of a decimal digit.
fn digit_text(digit: u32) -> (text: &'static str)
    requires
        digit < 10,
    ensures
        text@ == seq![(digit as nat + '0' as nat) as char],
{
    proof {
        reveal_strlit("0");
        reveal_strlit("1");
        reveal_strlit("2");
        reveal_strlit("3");
        reveal_strlit("4");
        reveal_strlit("5");
        reveal_strlit("6");
        reveal_strlit("7");
        reveal_strlit("8");
        reveal_strlit("9");
    }
    let text = match digit {
        0 => "0",
        1 => "1",
        2 => "2",
        3 => "3",
        4 => "4",
        5 => "5",
        6 => "6",
        7 => "7",
        8 => "8",
        _ => "9",
    };
    assert(text@ =~= seq![(digit as nat + '0' as nat) as char]);
    text
}

/// Writes `n` in decimal digits.
pub fn decimal(n: u32) -> (text: String)
    ensures
        text@ == decimal_text(n as nat),
    decreases n,
{
    if n < 10 {
        digit_text(n).to_owned()
    } else {
        let mut text = decimal(n / 10);
        text.append(digit_text(n % 10));
        text
    }
}

/// A text without `c` has no first position of it.
proof fn lemma_no_position(text: Seq<char>, c: char)
    requires
        !text.contains(c),
    ensures
        first_position(text, c) is None,
    decreases text.len(),
{
    if text.len() > 0 {
        assert(text[0] != c);
        assert forall|i: int| 0 <= i < text.drop_first().len() implies text.drop_first()[i] != c by {
            assert(text[i + 1] != c);
        }
        lemma_no_position(text.drop_first(), c);
    }
}

/// The first position of `c` in a text that starts with a part without `c`
/// and then has `c` is the length of that part.
proof fn lemma_position_after(before: Seq<char>, c: char, after: Seq<char>)
    requires
        !before.contains(c),
    ensures
        first_position(before + seq![c] + after, c) == Some(before.len() as int),
    decreases before.len(),
{
    let text = before + seq![c] + after;
    if before.len() == 0 {
        assert(text[0] == c);
    } else {
        assert(text[0] == before[0]);
        assert(before[0] != c);
        assert forall|i: int| 0 <= i < before.drop_first().len() implies before.drop_first()[i]
            != c by {
            assert(before[i + 1] != c);
        }
        assert(text.drop_first() =~= before.drop_first() + seq![c] + after);
        lemma_position_after(before.drop_first(), c, after);
    }
}

/// Where `c` first occurs in `text`, counted in characters.
fn find_first(text: &str, c: char) -> (found: Option<usize>)
    ensures
        found matches Some(i) ==> first_position(text@, c) == Some(i as int) && i < text@.len(),
        found is None ==> first_position(text@, c) is None,
{
    let len = text.unicode_len();
    let mut i: usize = 0;
    while i < len
        invariant
            i <= len,
            len == text@.len(),
            !text@.take(i as int).contains(c),
        decreases len - i,
    {
        if text.get_char(i) == c {
            proof {
                assert(text@ =~= text@.take(i as int) + seq![c] + text@.skip(i + 1));
                lemma_position_after(text@.take(i as int), c, text@.skip(i + 1));
            }
            return Some(i);
        }
        proof {
            let next = text@.take(i + 1);
            assert forall|j: int| 0 <= j < next.len() implies next[j] != c by {
                if j < i {
                    assert(text@.take(i as int)[j] == text@[j]);
                    assert(text@.take(i as int).contains(text@[j]));
                }
            }
        }
        i += 1;
    }
    proof {
        assert(text@.take(i as int) =~= text@);
        lemma_no_position(text@, c);
    }
    None
}

/// The dimensions that a path component names, if it names any.
pub fn parse_dimensions(component: &str) -> (dimensions: Option<(u32, u32)>)
    ensures
        dimensions == dimensions_of(component@),
{
    match find_first(component, 'x') {
        Some(i) => {
            let len = component.unicode_len();
            let before = component.substring_char(0, i);
            let after = component.substring_char(i + 1, len);
            proof {
                assert(component@.take(i as int) =~= before@);
                assert(component@.skip(i + 1) =~= after@);
            }
            match (parse_u32(before), parse_u32(after)) {
                (Some(width), Some(height)) => Some((width, height)),
                _ => None,
            }
        },
        None => None,
    }
}

/// Whether `n` times `scale_factor` fits in 32 bits.
fn product_fits(n: u32, scale_factor: u32) -> (fits: bool)
    ensures
        fits == (n * scale_factor <= u32::MAX),
{
    assert(0 <= n * scale_factor <= 0xffff_ffff * 0xffff_ffff) by (nonlinear_arith)
        requires
            0 <= n <= 0xffff_ffff,
            0 <= scale_factor <= 0xffff_ffff,
    ;
    n as u64 * scale_factor as u64 <= u32::MAX as u64
}

/// Whether `scale_component` can rescale `component`.
pub fn component_can_scale(component: &str, scale_factor: u32, direction: ScaleDirection) -> (yes:
    bool)
    ensures
        yes == component_scalable(component@, scale_factor, direction),
{
    match parse_dimensions(component) {
        Some((width, height)) => match direction {
            ScaleDirection::Up => product_fits(width, scale_factor) && product_fits(
                height,
                scale_factor,
            ),
            ScaleDirection::Down => scale_factor != 0,
        },
        None => true,
    }
}

/// A number written in decimal is digits only, and reads as the number.
pub proof fn lemma_decimal_text(n: nat)
    ensures
        decimal_text(n).len() > 0,
        all_digits(decimal_text(n)),
        decimal_value(decimal_text(n)) == n,
        !decimal_text(n).contains('x'),
        decimal_text(n)[0] != '+',
    decreases n,
{
    let text = decimal_text(n);
    if n < 10 {
        assert(is_digit(text[0]));
        assert(text.drop_last() =~= Seq::<char>::empty());
        assert(decimal_value(text.drop_last()) == 0);
    } else {
        let before = decimal_text(n / 10);
        lemma_decimal_text(n / 10);
        assert(text.drop_last() =~= before);
        assert(is_digit(text.last()));
        assert forall|i: int| 0 <= i < text.len() implies is_digit(#[trigger] text[i]) by {
            if i < before.len() {
                assert(text[i] == before[i]);
            }
        }
        assert forall|i: int| 0 <= i < text.len() implies text[i] != 'x' by {
            if i < before.len() {
                assert(before.contains(before[i]));
            }
        }
    }
}

/// The name of a pair of dimensions names those dimensions.
pub proof fn lemma_dimension_text_parses(width: u32, height: u32)
    ensures
        dimensions_of(dimension_text(width as nat, height as nat)) == Some((width, height)),
{
    let before = decimal_text(width as nat);
    let after = decimal_text(height as nat);
    let text = dimension_text(width as nat, height as nat);
    lemma_decimal_text(width as nat);
    lemma_decimal_text(height as nat);
    lemma_position_after(before, 'x', after);
    assert(text.take(before.len() as int) =~= before);
    assert(text.skip(before.len() as int + 1) =~= after);
}

/// A component that names dimensions names the scaled dimensions after
/// rescaling, and what was scaled up and then down by the same factor names
/// the dimensions that it named at first.
pub proof fn lemma_scaled_component_dimensions(
    component: Seq<char>,
    scale_factor: u32,
    direction: ScaleDirection,
)
    requires
        dimensions_of(component) is Some,
        component_scalable(component, scale_factor, direction),
    ensures
        dimensions_of(scaled_component(component, scale_factor, direction)) == Some(
            (
                scaled(dimensions_of(component).unwrap().0, scale_factor, direction) as u32,
                scaled(dimensions_of(component).unwrap().1, scale_factor, direction) as u32,
            ),
        ),
        direction == ScaleDirection::Up && scale_factor > 0 ==> dimensions_of(
            scaled_component(
                scaled_component(component, scale_factor, ScaleDirection::Up),
                scale_factor,
                ScaleDirection::Down,
            ),
        ) == dimensions_of(component),
{
    let (width, height) = dimensions_of(component).unwrap();
    let new_width = scaled(width, scale_factor, direction);
    let new_height = scaled(height, scale_factor, direction);
    if direction == ScaleDirection::Down {
        assert(0 <= new_width <= width && 0 <= new_height <= height) by (nonlinear_arith)
            requires
                new_width == width as int / scale_factor as int,
                new_height == height as int / scale_factor as int,
                scale_factor > 0,
                width >= 0,
                height >= 0,
        ;
    } else {
        assert(0 <= new_width && 0 <= new_height) by (nonlinear_arith)
            requires
                new_width == width * scale_factor,
                new_height == height * scale_factor,
                scale_factor >= 0,
                width >= 0,
                height >= 0,
        ;
    }
    lemma_dimension_text_parses(new_width as u32, new_height as u32);
    if direction == ScaleDirection::Up && scale_factor > 0 {
        let up = scaled_component(component, scale_factor, ScaleDirection::Up);
        lemma_div_multiples_vanish(width as int, scale_factor as int);
        lemma_div_multiples_vanish(height as int, scale_factor as int);
        assert(width * scale_factor == scale_factor * width) by (nonlinear_arith);
        assert(height * scale_factor == scale_factor * height) by (nonlinear_arith);
        lemma_dimension_text_parses(width, height);
        assert(dimensions_of(up) == Some((new_width as u32, new_height as u32)));
        assert(scaled(new_width as u32, scale_factor, ScaleDirection::Down) == width);
        assert(scaled(new_height as u32, scale_factor, ScaleDirection::Down) == height);
    }
}

/// The name of the directory for images of the given dimensions.
pub fn dimension_name(width: u32, height: u32) -> (name: String)
    ensures
        name@ == dimension_text(width as nat, height as nat),
{
    let mut name = decimal(width);
    name.append("x");
    name.append(decimal(height).as_str());
    proof {
        reveal_strlit("x");
        assert("x"@ =~= seq!['x']);
    }
    name
}

/// Rescales the dimensions that a path component names; a component that
/// names none is copied.
pub fn scale_component(component: &str, scale_factor: u32, direction: ScaleDirection) -> (out:
    String)
    requires
        component_scalable(component@, scale_factor, direction),
    ensures
        out@ == scaled_component(component@, scale_factor, direction),
{
    match parse_dimensions(component) {
        Some((width, height)) => {
            let (width, height) = match direction {
                ScaleDirection::Up => (width * scale_factor, height * scale_factor),
                ScaleDirection::Down => (width / scale_factor, height / scale_factor),
            };
            dimension_name(width, height)
        },
        None => component.to_owned(),
    }
}

/// Whether `scale_path` can rescale `path`.
pub fn path_can_scale(path: &Vec<String>, scale_factor: u32, direction: ScaleDirection) -> (yes:
    bool)
    ensures
        yes == path_scalable(texts(path@), scale_factor, direction),
{
    let mut i: usize = 0;
    while i < path.len()
        invariant
            i <= path@.len(),
            forall|j: int|
                0 <= j < i ==> component_scalable(
                    #[trigger] texts(path@)[j],
                    scale_factor,
                    direction,
                ),
        decreases path@.len() - i,
    {
        if !component_can_scale(path[i].as_str(), scale_factor, direction) {
            assert(!component_scalable(texts(path@)[i as int], scale_factor, direction));
            return false;
        }
        i += 1;
    }
    true
}

/// Rescales the dimensions that the components of a path name.
pub fn scale_path(path: &Vec<String>, scale_factor: u32, direction: ScaleDirection) -> (out: Vec<
    String,
>)
    requires
        path_scalable(texts(path@), scale_factor, direction),
    ensures
        texts(out@) == scaled_path(texts(path@), scale_factor, direction),
{
    let mut out: Vec<String> = Vec::new();
    let mut i: usize = 0;
    while i < path.len()
        invariant
            i <= path@.len(),
            path_scalable(texts(path@), scale_factor, direction),
            out@.len() == i,
            forall|j: int|
                0 <= j < i ==> (#[trigger] out@[j])@ == scaled_component(
                    path@[j]@,
                    scale_factor,
                    direction,
                ),
        decreases path@.len() - i,
    {
        assert(component_scalable(texts(path@)[i as int], scale_factor, direction));
        out.push(scale_component(path[i].as_str(), scale_factor, direction));
        i += 1;
    }
    assert(texts(out@) =~= scaled_path(texts(path@), scale_factor, direction));
    out
}

/// Whether two paths have the same components.
pub fn same_path(a: &Vec<String>, b: &Vec<String>) -> (same: bool)
    ensures
        same == (texts(a@) == texts(b@)),
{
    if a.len() != b.len() {
        assert(texts(a@).len() != texts(b@).len());
        return false;
    }
    let mut i: usize = 0;
    while i < a.len()
        invariant
            i <= a@.len(),
            a@.len() == b@.len(),
            forall|j: int| 0 <= j < i ==> (#[trigger] a@[j])@ == b@[j]@,
        decreases a@.len() - i,
    {
        if !str_equal(a[i].as_str(), b[i].as_str()) {
            assert(texts(a@)[i as int] != texts(b@)[i as int]);
            return false;
        }
        i += 1;
    }
    assert(texts(a@) =~= texts(b@));
    true
}

/// Whether `paths` holds a path with the components of `path`.
fn holds_path(paths: &Vec<Vec<String>>, path: &Vec<String>) -> (found: bool)
    ensures
        found == path_texts(paths@).contains(texts(path@)),
{
    let mut i: usize = 0;
    while i < paths.len()
        invariant
            i <= paths@.len(),
            forall|j: int| 0 <= j < i ==> #[trigger] path_texts(paths@)[j] != texts(path@),
        decreases paths@.len() - i,
    {
        if same_path(&paths[i], path) {
            assert(path_texts(paths@)[i as int] == texts(path@));
            return true;
        }
        i += 1;
    }
    false
}

/// Whether `scale_dir_dimensions` can rescale every path of `paths`: no
/// division by zero is asked for, and no scaled dimension leaves 32 bits.
pub fn can_scale(paths: &Vec<Vec<String>>, scale_factor: u32, direction: ScaleDirection) -> (yes:
    bool)
    ensures
        yes == all_scalable(path_texts(paths@), scale_factor, direction),
{
    let mut i: usize = 0;
    while i < paths.len()
        invariant
            i <= paths@.len(),
            forall|j: int|
                0 <= j < i ==> path_scalable(
                    #[trigger] path_texts(paths@)[j],
                    scale_factor,
                    direction,
                ),
        decreases paths@.len() - i,
    {
        if !path_can_scale(&paths[i], scale_factor, direction) {
            assert(!path_scalable(path_texts(paths@)[i as int], scale_factor, direction));
            return false;
        }
        i += 1;
    }
    true
}

/// Rescales the dimensions that the directories of a set of relative paths
/// are named after. The result is a set again: paths that become equal are
/// kept once.
pub fn scale_dir_dimensions(
    paths: Vec<Vec<String>>,
    scale_factor: u32,
    direction: ScaleDirection,
) -> (out: Vec<Vec<String>>)
    requires
        all_scalable(path_texts(paths@), scale_factor, direction),
    ensures
        path_texts(out@) == scaled_set(path_texts(paths@), scale_factor, direction),
        path_texts(out@).no_duplicates(),
{
    let mut out: Vec<Vec<String>> = Vec::new();
    let mut i: usize = 0;
    let ghost all = path_texts(paths@);
    proof {
        assert(all.take(0) =~= Seq::<Seq<Seq<char>>>::empty());
        assert(path_texts(out@) =~= scaled_set(all.take(0), scale_factor, direction));
    }
    while i < paths.len()
        invariant
            i <= paths@.len(),
            all == path_texts(paths@),
            all_scalable(all, scale_factor, direction),
            path_texts(out@) == scaled_set(all.take(i as int), scale_factor, direction),
            path_texts(out@).no_duplicates(),
        decreases paths@.len() - i,
    {
        proof {
            assert(path_scalable(all[i as int], scale_factor, direction));
            assert(all.take(i + 1).drop_last() =~= all.take(i as int));
            assert(all.take(i + 1).last() == all[i as int]);
        }
        let path = scale_path(&paths[i], scale_factor, direction);
        let ghost before = path_texts(out@);
        if !holds_path(&out, &path) {
            out.push(path);
            assert(path_texts(out@) =~= before.push(texts(path@)));
        }
        i += 1;
    }
    proof {
        assert(all.take(i as int) =~= all);
    }
    out
}

/// Whether a file extension is that of a PNG image, in any mix of upper and
/// lower case.
pub open spec fn is_png(extension: Seq<char>) -> bool {
    &&& extension.len() == 3
    &&& (extension[0] == 'p' || extension[0] == 'P')
    &&& (extension[1] == 'n' || extension[1] == 'N')
    &&& (extension[2] == 'g' || extension[2] == 'G')
}

/// Whether a file with this extension is taken as an input image.
pub fn is_png_extension(extension: &str) -> (yes: bool)
    ensures
        yes == is_png(extension@),
{
    if extension.unicode_len() != 3 {
        return false;
    }
    let p = extension.get_char(0);
    let n = extension.get_char(1);
    let g = extension.get_char(2);
    (p == 'p' || p == 'P') && (n == 'n' || n == 'N') && (g == 'g' || g == 'G')
}

} // verus!
