//! What is done to one image: which transformations are applied to what,
//! with which seed, and under which names the results are written.
//!
//! The shifts are applied to every image, one after the other, and give the
//! base variant. Every other transformation is applied to that base variant
//! on its own and gives one output; none is applied to the output of another.

use crate::ops::{apply_fixed, brighten, huerotate, is_hue_rotation};
use crate::outputs::{
    lemma_outputs_differ, lemma_unchanged_differs, output_components, output_path,
    unchanged_components, unchanged_path,
};
use crate::raster::PixelBuffer;
use crate::registry::{Operator, TransformationFactory};
use crate::seed::{derive_seed_for_transform, derived_seed};
use crate::shift::{apply_shift, chosen_shift, ShiftAxis};
use crate::text::{lowercase, slice_texts, str_equal, texts, to_lowercase};
use vstd::prelude::*;
use vstd::string::*;

verus! {

/// Whether `name` is the name of a transformation that is applied to every
/// image: one of the two shifts.
pub open spec fn is_always_name(name: Seq<char>) -> bool {
    name == "hor_shift"@ || name == "ver_shift"@
}

/// The names of `names` that are applied to every image, in order.
pub open spec fn always_names(names: Seq<Seq<char>>) -> Seq<Seq<char>> {
    names.filter(|name: Seq<char>| is_always_name(name))
}

/// The names of `names` that give one output each, in order.
pub open spec fn one_time_names(names: Seq<Seq<char>>) -> Seq<Seq<char>> {
    names.filter(|name: Seq<char>| !is_always_name(name))
}

/// Both lists grow by at most the name that is added, each where it
/// belongs.
proof fn lemma_split_push(names: Seq<Seq<char>>, name: Seq<char>)
    ensures
        always_names(names.push(name)) == if is_always_name(name) {
            always_names(names).push(name)
        } else {
            always_names(names)
        },
        one_time_names(names.push(name)) == if is_always_name(name) {
            one_time_names(names)
        } else {
            one_time_names(names).push(name)
        },
{
    reveal(Seq::filter);
    assert(names.push(name).drop_last() =~= names);
}

/// Whether `name` names a transformation that is applied to every image.
pub fn is_always(name: &str) -> (always: bool)
    ensures
        always == is_always_name(name@),
{
    str_equal(name, "hor_shift") || str_equal(name, "ver_shift")
}

/// Splits the names asked for into those applied to every image and those
/// that give one output each. Both lists keep the caller's order.
pub fn split_transformations<'a>(list: &'a [String]) -> (split: (Vec<&'a str>, Vec<&'a str>))
    ensures
        slice_texts(split.0@) == always_names(texts(list@)),
        slice_texts(split.1@) == one_time_names(texts(list@)),
{
    let mut always: Vec<&'a str> = Vec::new();
    let mut one_time: Vec<&'a str> = Vec::new();
    let mut i: usize = 0;
    proof {
        reveal(Seq::filter);
        assert(texts(list@).take(0) =~= Seq::<Seq<char>>::empty());
        assert(slice_texts(always@) =~= always_names(texts(list@).take(0)));
        assert(slice_texts(one_time@) =~= one_time_names(texts(list@).take(0)));
    }
    while i < list.len()
        invariant
            i <= list@.len(),
            slice_texts(always@) == always_names(texts(list@).take(i as int)),
            slice_texts(one_time@) == one_time_names(texts(list@).take(i as int)),
        decreases list@.len() - i,
    {
        let transformation: &'a str = list[i].as_str();
        let ghost before_always = slice_texts(always@);
        let ghost before_one_time = slice_texts(one_time@);
        proof {
            lemma_split_push(texts(list@).take(i as int), transformation@);
            assert(texts(list@).take(i as int).push(transformation@) =~= texts(list@).take(
                i as int + 1,
            ));
        }
        if is_always(transformation) {
            always.push(transformation);
            assert(slice_texts(always@) =~= before_always.push(transformation@));
        } else {
            one_time.push(transformation);
            assert(slice_texts(one_time@) =~= before_one_time.push(transformation@));
        }
        i += 1;
    }
    proof {
        assert(texts(list@).take(i as int) =~= texts(list@));
    }
    (always, one_time)
}

/// One application of a transformation.
pub struct Step {
    /// The name under which the transformation was asked for.
    pub name: String,
    /// The transformation that the registry holds under that name.
    pub operator: Operator,
    /// The seed of the random numbers that the transformation draws.
    pub seed: u64,
}

/// The model of a `Step`.
pub struct StepModel {
    pub name: Seq<char>,
    pub operator: Operator,
    pub seed: u64,
}

impl View for Step {
    type V = StepModel;

    open spec fn view(&self) -> StepModel {
        StepModel { name: self.name@, operator: self.operator, seed: self.seed }
    }
}

/// The model of each step of `steps`.
pub open spec fn step_models(steps: Seq<Step>) -> Seq<StepModel> {
    Seq::new(steps.len(), |i: int| steps[i]@)
}

/// The steps that stand for `names` on the file with the normalised stem
/// `stem`: one for each name that the registry knows, in order, each with the
/// seed derived for that file and that name. A name that the registry does
/// not know leaves no step.
pub open spec fn resolved(
    registry: Map<Seq<char>, Operator>,
    stem: Seq<char>,
    base_seed: u64,
    names: Seq<Seq<char>>,
) -> Seq<StepModel>
    decreases names.len(),
{
    if names.len() == 0 {
        Seq::empty()
    } else {
        let before = resolved(registry, stem, base_seed, names.drop_last());
        let name = names.last();
        if registry.contains_key(name) {
            before.push(
                StepModel {
                    name,
                    operator: registry[name],
                    seed: derived_seed(base_seed, stem, name),
                },
            )
        } else {
            before
        }
    }
}

/// The names of `names` that the registry does not know, in order.
pub open spec fn unregistered(registry: Map<Seq<char>, Operator>, names: Seq<Seq<char>>) -> Seq<
    Seq<char>,
>
    decreases names.len(),
{
    if names.len() == 0 {
        Seq::empty()
    } else {
        let before = unregistered(registry, names.drop_last());
        if registry.contains_key(names.last()) {
            before
        } else {
            before.push(names.last())
        }
    }
}

/// What is done to one image after it has been written out unchanged.
pub struct JobPlan {
    /// The steps that give the base variant. Each is applied to what the one
    /// before it gave, the first to the image as it was read; a step that
    /// fails gives its input back.
    pub base: Vec<Step>,
    /// Whether the base variant is itself written, under the suffix
    /// `shifted`: it is where no other transformation was asked for.
    pub save_base: bool,
    /// The steps that give one output each. Each is applied to the base
    /// variant and written under the suffix of its name; a step that fails
    /// gives no output.
    pub branches: Vec<Step>,
    /// The names asked for that the registry does not know, those applied to
    /// every image first.
    pub skipped: Vec<String>,
}

/// Adds to `steps` and `skipped` what the names `names` stand for.
fn resolve_into(
    steps: &mut Vec<Step>,
    skipped: &mut Vec<String>,
    stem: &str,
    factory: &TransformationFactory,
    names: &[&str],
    base_seed: u64,
)
    ensures
        step_models(final(steps)@) == step_models(old(steps)@) + resolved(
            factory@,
            stem@,
            base_seed,
            slice_texts(names@),
        ),
        texts(final(skipped)@) == texts(old(skipped)@) + unregistered(factory@, slice_texts(names@)),
{
    let ghost all = slice_texts(names@);
    let ghost steps_before = step_models(steps@);
    let ghost skipped_before = texts(skipped@);
    let mut i: usize = 0;
    proof {
        assert(all.take(0) =~= Seq::<Seq<char>>::empty());
        assert(step_models(steps@) =~= steps_before + resolved(
            factory@,
            stem@,
            base_seed,
            all.take(0),
        ));
        assert(texts(skipped@) =~= skipped_before + unregistered(factory@, all.take(0)));
    }
    while i < names.len()
        invariant
            i <= names@.len(),
            all == slice_texts(names@),
            step_models(steps@) == steps_before + resolved(
                factory@,
                stem@,
                base_seed,
                all.take(i as int),
            ),
            texts(skipped@) == skipped_before + unregistered(factory@, all.take(i as int)),
        decreases names@.len() - i,
    {
        let name: &str = names[i];
        let ghost steps_now = step_models(steps@);
        let ghost skipped_now = texts(skipped@);
        proof {
            assert(all.take(i as int + 1).drop_last() =~= all.take(i as int));
            assert(all.take(i as int + 1).last() == name@);
        }
        match factory.create(name) {
            Some(operator) => {
                let seed = derive_seed_for_transform(stem, base_seed, name);
                let step = Step { name: name.to_owned(), operator, seed };
                steps.push(step);
                assert(step_models(steps@) =~= steps_now.push(step@));
            },
            None => {
                skipped.push(name.to_owned());
                assert(texts(skipped@) =~= skipped_now.push(name@));
            },
        }
        i += 1;
    }
    proof {
        assert(all.take(i as int) =~= all);
    }
}

/// Plans the work on the file whose stem, already in lowercase, is `stem`.
pub fn plan_job_for_stem(
    stem: &str,
    factory: &TransformationFactory,
    always: &[&str],
    one_time: &[&str],
    base_seed: u64,
) -> (plan: JobPlan)
    ensures
        step_models(plan.base@) == resolved(factory@, stem@, base_seed, slice_texts(always@)),
        plan.save_base == (one_time@.len() == 0),
        step_models(plan.branches@) == resolved(
            factory@,
            stem@,
            base_seed,
            slice_texts(one_time@),
        ),
        texts(plan.skipped@) == unregistered(factory@, slice_texts(always@)) + unregistered(
            factory@,
            slice_texts(one_time@),
        ),
{
    let mut base: Vec<Step> = Vec::new();
    let mut branches: Vec<Step> = Vec::new();
    let mut skipped: Vec<String> = Vec::new();
    proof {
        assert(step_models(base@) =~= Seq::<StepModel>::empty());
        assert(step_models(branches@) =~= Seq::<StepModel>::empty());
        assert(texts(skipped@) =~= Seq::<Seq<char>>::empty());
    }
    resolve_into(&mut base, &mut skipped, stem, factory, always, base_seed);
    resolve_into(&mut branches, &mut skipped, stem, factory, one_time, base_seed);
    proof {
        assert(step_models(base@) =~= resolved(factory@, stem@, base_seed, slice_texts(always@)));
        assert(step_models(branches@) =~= resolved(
            factory@,
            stem@,
            base_seed,
            slice_texts(one_time@),
        ));
        assert(texts(skipped@) =~= unregistered(factory@, slice_texts(always@)) + unregistered(
            factory@,
            slice_texts(one_time@),
        ));
    }
    JobPlan { base, save_base: one_time.len() == 0, branches, skipped }
}

/// Plans the work on the file with the stem `file_stem`. Seeds are derived
/// from the stem in lowercase, so that they do not depend on how the file
/// system spells the name.
pub fn plan_job(
    file_stem: &str,
    factory: &TransformationFactory,
    always: &[&str],
    one_time: &[&str],
    base_seed: u64,
) -> (plan: JobPlan)
    ensures
        step_models(plan.base@) == resolved(
            factory@,
            lowercase(file_stem@),
            base_seed,
            slice_texts(always@),
        ),
        plan.save_base == (one_time@.len() == 0),
        step_models(plan.branches@) == resolved(
            factory@,
            lowercase(file_stem@),
            base_seed,
            slice_texts(one_time@),
        ),
        texts(plan.skipped@) == unregistered(factory@, slice_texts(always@)) + unregistered(
            factory@,
            slice_texts(one_time@),
        ),
{
    let stem = to_lowercase(file_stem);
    plan_job_for_stem(stem.as_str(), factory, always, one_time, base_seed)
}

/// Asking for a name that the registry does not know changes nothing in
/// what is done: the steps are those of the same request without that name.
pub proof fn lemma_unknown_name_is_passed_over(
    registry: Map<Seq<char>, Operator>,
    stem: Seq<char>,
    base_seed: u64,
    names: Seq<Seq<char>>,
    i: int,
)
    requires
        0 <= i < names.len(),
        !registry.contains_key(names[i]),
    ensures
        resolved(registry, stem, base_seed, names) == resolved(
            registry,
            stem,
            base_seed,
            names.remove(i),
        ),
    decreases names.len(),
{
    if i == names.len() - 1 {
        assert(names.remove(i) =~= names.drop_last());
    } else {
        lemma_unknown_name_is_passed_over(registry, stem, base_seed, names.drop_last(), i);
        assert(names.remove(i).drop_last() =~= names.drop_last().remove(i));
        assert(names.remove(i).last() == names.last());
    }
}

/// Every step stands for a name that was asked for and that the registry
/// knows, and every such name has its step.
pub proof fn lemma_resolved_names(
    registry: Map<Seq<char>, Operator>,
    stem: Seq<char>,
    base_seed: u64,
    names: Seq<Seq<char>>,
)
    ensures
        forall|k: int|
            0 <= k < resolved(registry, stem, base_seed, names).len() ==> {
                let step = #[trigger] resolved(registry, stem, base_seed, names)[k];
                &&& names.contains(step.name)
                &&& registry.contains_key(step.name)
                &&& step.operator == registry[step.name]
                &&& step.seed == derived_seed(base_seed, stem, step.name)
            },
        forall|j: int|
            0 <= j < names.len() && registry.contains_key(#[trigger] names[j]) ==> exists|k: int|
                0 <= k < resolved(registry, stem, base_seed, names).len() && #[trigger] resolved(
                    registry,
                    stem,
                    base_seed,
                    names,
                )[k].name == names[j],
    decreases names.len(),
{
    if names.len() > 0 {
        let before = names.drop_last();
        let steps = resolved(registry, stem, base_seed, names);
        let steps_before = resolved(registry, stem, base_seed, before);
        lemma_resolved_names(registry, stem, base_seed, before);
        assert forall|k: int| 0 <= k < steps.len() implies names.contains((#[trigger] steps[k]).name) by {
            if k < steps_before.len() {
                assert(steps[k] == steps_before[k]);
                let j = choose|j: int| 0 <= j < before.len() && before[j] == steps_before[k].name;
                assert(names[j] == steps[k].name);
            } else {
                assert(names[names.len() - 1] == steps[k].name);
            }
        }
        assert forall|j: int|
            0 <= j < names.len() && registry.contains_key(#[trigger] names[j]) implies exists|k: int|
            0 <= k < steps.len() && #[trigger] steps[k].name == names[j] by {
            if j < before.len() {
                assert(before[j] == names[j]);
                let k = choose|k: int|
                    0 <= k < steps_before.len() && #[trigger] steps_before[k].name == before[j];
                assert(steps[k].name == names[j]);
            } else {
                assert(steps[steps.len() - 1].name == names[j]);
            }
        }
    }
}

/// The paths under which the outputs of one file are written: that of the
/// unchanged image, then either that of the base variant, with the suffix
/// `shifted`, or one for each branch, with the branch's name as the suffix.
pub open spec fn planned_paths(
    relative: Seq<Seq<char>>,
    save_base: bool,
    branches: Seq<StepModel>,
) -> Seq<Seq<Seq<char>>> {
    if save_base {
        seq![unchanged_path(relative), output_path(relative, "shifted"@)]
    } else {
        seq![unchanged_path(relative)] + Seq::new(
            branches.len(),
            |i: int| output_path(relative, branches[i].name),
        )
    }
}

/// The outputs of different input files never share a path, whatever is
/// asked for: no worker writes where another one writes.
pub proof fn lemma_outputs_of_different_files_are_apart(
    a: Seq<Seq<char>>,
    save_base_a: bool,
    branches_a: Seq<StepModel>,
    b: Seq<Seq<char>>,
    save_base_b: bool,
    branches_b: Seq<StepModel>,
)
    requires
        a != b,
    ensures
        forall|i: int, j: int|
            0 <= i < planned_paths(a, save_base_a, branches_a).len() && 0 <= j < planned_paths(
                b,
                save_base_b,
                branches_b,
            ).len() ==> #[trigger] planned_paths(a, save_base_a, branches_a)[i]
                != #[trigger] planned_paths(b, save_base_b, branches_b)[j],
{
    let first = planned_paths(a, save_base_a, branches_a);
    let second = planned_paths(b, save_base_b, branches_b);
    assert forall|i: int, j: int| 0 <= i < first.len() && 0 <= j < second.len() implies first[i]
        != second[j] by {
        let s = if save_base_a {
            "shifted"@
        } else {
            branches_a[i - 1].name
        };
        let t = if save_base_b {
            "shifted"@
        } else {
            branches_b[j - 1].name
        };
        lemma_unchanged_differs(a, b, t);
        lemma_unchanged_differs(b, a, s);
        lemma_outputs_differ(a, s, b, t);
    }
}

/// The components of each path of `paths`.
pub open spec fn path_models(paths: Seq<Vec<String>>) -> Seq<Seq<Seq<char>>> {
    Seq::new(paths.len(), |i: int| texts(paths[i]@))
}

impl JobPlan {
    /// The paths under which the outputs of the input at `relative` are
    /// written, where every step succeeds.
    pub fn output_paths(&self, relative: &Vec<String>) -> (paths: Vec<Vec<String>>)
        ensures
            path_models(paths@) == planned_paths(
                texts(relative@),
                self.save_base,
                step_models(self.branches@),
            ),
    {
        let ghost want = planned_paths(
            texts(relative@),
            self.save_base,
            step_models(self.branches@),
        );
        let mut paths: Vec<Vec<String>> = Vec::new();
        paths.push(unchanged_components(relative));
        if self.save_base {
            paths.push(output_components(relative, "shifted"));
            assert(path_models(paths@) =~= want);
            return paths;
        }
        let mut i: usize = 0;
        while i < self.branches.len()
            invariant
                i <= self.branches@.len(),
                paths@.len() == i + 1,
                texts(paths@[0]@) == unchanged_path(texts(relative@)),
                forall|j: int|
                    0 <= j < i ==> texts((#[trigger] paths@[j + 1])@) == output_path(
                        texts(relative@),
                        self.branches@[j].name@,
                    ),
            decreases self.branches@.len() - i,
        {
            paths.push(output_components(relative, self.branches[i].name.as_str()));
            i += 1;
        }
        proof {
            assert(path_models(paths@).len() == want.len());
            assert forall|j: int| 0 <= j < want.len() implies path_models(paths@)[j] == want[j] by {
                if j > 0 {
                    assert(texts(paths@[(j - 1) + 1]@) == output_path(
                        texts(relative@),
                        self.branches@[j - 1].name@,
                    ));
                }
            }
            assert(path_models(paths@) =~= want);
        }
        paths
    }
}

/// What is drawn at random for one step on one image.
pub enum Drawn {
    /// For a shift: the distance that was sampled, and whether it is kept or
    /// its complement is taken.
    Shift { sampled: u32, keep: bool },
    /// For a rotation of the hue: the angle in degrees.
    Degrees(i32),
    /// For brightening: the amount that is added.
    Delta(i32),
    /// For a change of contrast or saturation: the image after the change.
    Image(PixelBuffer),
    /// Nothing: the step fails.
    Failed,
}

/// Whether `out` is what a step with `operator` makes of `img` with what was
/// drawn for it. A draw that does not fit the operator gives nothing.
pub open spec fn drawn_result(
    operator: Operator,
    img: PixelBuffer,
    drawn: Drawn,
    out: Option<PixelBuffer>,
) -> bool {
    match (operator, drawn) {
        (Operator::ShiftH, Drawn::Shift { sampled, keep }) => out is Some && out.unwrap()@
            == img@.shifted(
            chosen_shift(img@.width as u32, sampled, keep) as nat,
            ShiftAxis::Horizontal,
        ),
        (Operator::ShiftV, Drawn::Shift { sampled, keep }) => out is Some && out.unwrap()@
            == img@.shifted(
            chosen_shift(img@.height as u32, sampled, keep) as nat,
            ShiftAxis::Vertical,
        ),
        (Operator::HueRotate, Drawn::Degrees(degrees)) => out is Some && out.unwrap()@.wf()
            && is_hue_rotation(img@.data, degrees as int, out.unwrap()@.data)
            && out.unwrap()@.same_shape_and_alpha(img@),
        (Operator::Brighten, Drawn::Delta(delta)) => out is Some && out.unwrap()@
            == img@.brightened(delta as int),
        (Operator::Contrast, Drawn::Image(after)) => out == Some(after),
        (Operator::Saturate, Drawn::Image(after)) => out == Some(after),
        _ => out is None,
    }
}

/// Whether `out` is what `step` makes of `img`: what its operator makes of
/// every image where it takes no parameter, else what it makes of the image
/// with what `draw` draws for it.
pub open spec fn step_applied<D: Fn(&PixelBuffer, &Step) -> Drawn>(
    draw: D,
    img: PixelBuffer,
    step: Step,
    out: Option<PixelBuffer>,
) -> bool {
    match step.operator.fixed_result(img@) {
        Some(result) => out is Some && out.unwrap()@ == result,
        None => exists|drawn: Drawn|
            #[trigger] call_ensures(draw, (&img, &step), drawn) && drawn_result(
                step.operator,
                img,
                drawn,
                out,
            ),
    }
}

/// Applies one step to an image. Nothing is drawn for an operator that
/// takes no parameter.
pub fn apply_step<D: Fn(&PixelBuffer, &Step) -> Drawn>(img: &PixelBuffer, step: &Step, draw: &D) -> (out:
    Option<PixelBuffer>)
    requires
        call_requires(*draw, (img, step)),
    ensures
        step_applied(*draw, *img, *step, out),
{
    match apply_fixed(step.operator, img) {
        Some(result) => Some(result),
        None => {
            let drawn = draw(img, step);
            let ghost seen = drawn;
            let out = match (step.operator, drawn) {
                (Operator::ShiftH, Drawn::Shift { sampled, keep }) => Some(
                    apply_shift(img, ShiftAxis::Horizontal, sampled, keep),
                ),
                (Operator::ShiftV, Drawn::Shift { sampled, keep }) => Some(
                    apply_shift(img, ShiftAxis::Vertical, sampled, keep),
                ),
                (Operator::HueRotate, Drawn::Degrees(degrees)) => Some(huerotate(img, degrees)),
                (Operator::Brighten, Drawn::Delta(delta)) => Some(brighten(img, delta)),
                (Operator::Contrast, Drawn::Image(after)) => Some(after),
                (Operator::Saturate, Drawn::Image(after)) => Some(after),
                _ => None,
            };
            proof {
                assert(call_ensures(*draw, (img, step), seen));
                assert(drawn_result(step.operator, *img, seen, out));
            }
            out
        },
    }
}

/// What a step leaves behind: its result, or its input where it failed.
pub open spec fn after_step(before: PixelBuffer, outcome: Option<PixelBuffer>) -> PixelBuffer {
    match outcome {
        Some(after) => after,
        None => before,
    }
}

/// The base variant after steps with the given outcomes, the first of them
/// on `img`.
pub open spec fn base_after(img: PixelBuffer, outcomes: Seq<Option<PixelBuffer>>) -> PixelBuffer
    decreases outcomes.len(),
{
    if outcomes.len() == 0 {
        img
    } else {
        after_step(base_after(img, outcomes.drop_last()), outcomes.last())
    }
}

/// Whether `outcomes` are what became of `steps`, each step applied to what
/// the steps before it left of `img`.
pub open spec fn are_outcomes<D: Fn(&PixelBuffer, &Step) -> Drawn>(
    draw: D,
    img: PixelBuffer,
    steps: Seq<Step>,
    outcomes: Seq<Option<PixelBuffer>>,
) -> bool {
    &&& outcomes.len() == steps.len()
    &&& forall|k: int|
        0 <= k < steps.len() ==> step_applied(
            draw,
            base_after(img, outcomes.take(k)),
            steps[k],
            #[trigger] outcomes[k],
        )
}

/// Makes the base variant of `img`: applies the steps one after the other,
/// each to what the one before it gave. A step that fails is passed over,
/// and the image as it was before that step goes on to the next.
pub fn apply_base_steps<D: Fn(&PixelBuffer, &Step) -> Drawn>(
    img: PixelBuffer,
    steps: &Vec<Step>,
    draw: &D,
) -> (base: PixelBuffer)
    requires
        forall|b: PixelBuffer, k: int|
            0 <= k < steps@.len() ==> #[trigger] call_requires(*draw, (&b, &steps@[k])),
    ensures
        exists|outcomes: Seq<Option<PixelBuffer>>|
            are_outcomes(*draw, img, steps@, outcomes) && base == base_after(img, outcomes),
{
    let ghost first = img;
    let mut base = img;
    let ghost mut outcomes: Seq<Option<PixelBuffer>> = Seq::empty();
    let mut i: usize = 0;
    while i < steps.len()
        invariant
            i <= steps@.len(),
            outcomes.len() == i,
            base == base_after(first, outcomes),
            forall|k: int|
                0 <= k < i ==> step_applied(
                    *draw,
                    base_after(first, outcomes.take(k)),
                    steps@[k],
                    #[trigger] outcomes[k],
                ),
            forall|b: PixelBuffer, k: int|
                0 <= k < steps@.len() ==> #[trigger] call_requires(*draw, (&b, &steps@[k])),
        decreases steps@.len() - i,
    {
        assert(call_requires(*draw, (&base, &steps@[i as int])));
        let outcome = apply_step(&base, &steps[i], draw);
        proof {
            let before = outcomes;
            outcomes = outcomes.push(outcome);
            assert(outcomes.drop_last() =~= before);
            assert(outcomes.take(i as int) =~= before);
            assert forall|k: int| 0 <= k < i + 1 implies step_applied(
                *draw,
                base_after(first, outcomes.take(k)),
                steps@[k],
                #[trigger] outcomes[k],
            ) by {
                if k < i {
                    assert(outcomes.take(k) =~= before.take(k));
                    assert(outcomes[k] == before[k]);
                }
            }
        }
        base = match outcome {
            Some(after) => after,
            None => base,
        };
        i += 1;
    }
    base
}

/// Whether `result` is what `write` made of writing `img` at `path`.
pub open spec fn written<W: Fn(&Vec<String>, &PixelBuffer) -> Result<(), E>, E>(
    write: W,
    path: Seq<Seq<char>>,
    img: PixelBuffer,
    result: Result<(), E>,
) -> bool {
    exists|file: Vec<String>|
        texts(file@) == path && #[trigger] call_ensures(write, (&file, &img), result)
}

/// Whether `result` is what became of one branch: the step was applied to
/// the base variant, and what it gave was written at the path of the
/// variant that has the branch's name as its suffix. A step that fails
/// writes nothing, and that is no error.
pub open spec fn branch_done<
    D: Fn(&PixelBuffer, &Step) -> Drawn,
    W: Fn(&Vec<String>, &PixelBuffer) -> Result<(), E>,
    E,
>(
    draw: D,
    write: W,
    relative: Seq<Seq<char>>,
    base: PixelBuffer,
    step: Step,
    result: Result<(), E>,
) -> bool {
    exists|outcome: Option<PixelBuffer>|
        #[trigger] step_applied(draw, base, step, outcome) && match outcome {
            Some(variant) => written(write, output_path(relative, step.name@), variant, result),
            None => result is Ok,
        }
}

/// Whether `results` are what became of the branches in order, up to the
/// first that could not be written. That failure is `done`; where every
/// branch went well, `done` is success.
pub open spec fn branches_done<
    D: Fn(&PixelBuffer, &Step) -> Drawn,
    W: Fn(&Vec<String>, &PixelBuffer) -> Result<(), E>,
    E,
>(
    draw: D,
    write: W,
    relative: Seq<Seq<char>>,
    base: PixelBuffer,
    steps: Seq<Step>,
    results: Seq<Result<(), E>>,
    done: Result<(), E>,
) -> bool {
    &&& results.len() <= steps.len()
    &&& forall|k: int|
        0 <= k < results.len() ==> branch_done(
            draw,
            write,
            relative,
            base,
            steps[k],
            #[trigger] results[k],
        )
    &&& forall|k: int| 0 <= k < results.len() - 1 ==> (#[trigger] results[k]) is Ok
    &&& match done {
        Ok(_) => results.len() == steps.len() && (results.len() > 0 ==> results.last() is Ok),
        Err(_) => results.len() > 0 && results.last() == done,
    }
}

/// Whether `done` is what became of writing the variants of the base
/// variant `base`: the base variant itself under the suffix `shifted` where
/// the plan says so, else one variant for each branch.
pub open spec fn variants_done<
    D: Fn(&PixelBuffer, &Step) -> Drawn,
    W: Fn(&Vec<String>, &PixelBuffer) -> Result<(), E>,
    E,
>(
    draw: D,
    write: W,
    plan: JobPlan,
    relative: Seq<Seq<char>>,
    base: PixelBuffer,
    done: Result<(), E>,
) -> bool {
    if plan.save_base {
        written(write, output_path(relative, "shifted"@), base, done)
    } else {
        exists|results: Seq<Result<(), E>>|
            branches_done(draw, write, relative, base, plan.branches@, results, done)
    }
}

/// Whether `done` is what became of the whole work on one image: the image
/// written unchanged, then the base variant made, then the variants written.
/// The first failure to write ends the work and is its result.
pub open spec fn image_done<
    D: Fn(&PixelBuffer, &Step) -> Drawn,
    W: Fn(&Vec<String>, &PixelBuffer) -> Result<(), E>,
    E,
>(
    draw: D,
    write: W,
    plan: JobPlan,
    relative: Seq<Seq<char>>,
    img: PixelBuffer,
    done: Result<(), E>,
) -> bool {
    exists|first: Result<(), E>|
        #[trigger] written(write, unchanged_path(relative), img, first) && if first is Err {
            done == first
        } else {
            exists|outcomes: Seq<Option<PixelBuffer>>|
                are_outcomes(draw, img, plan.base@, outcomes) && variants_done(
                    draw,
                    write,
                    plan,
                    relative,
                    #[trigger] base_after(img, outcomes),
                    done,
                )
        }
}

/// A branch of which the operator takes no parameter writes what that
/// operator makes of the base variant, whatever is drawn: a request for
/// `grayscale` after the shifts writes the grayscale of the shifted image,
/// not of the image as it was read.
pub proof fn lemma_fixed_branch_is_of_the_base<
    D: Fn(&PixelBuffer, &Step) -> Drawn,
    W: Fn(&Vec<String>, &PixelBuffer) -> Result<(), E>,
    E,
>(
    draw: D,
    write: W,
    relative: Seq<Seq<char>>,
    base: PixelBuffer,
    step: Step,
    result: Result<(), E>,
)
    requires
        branch_done(draw, write, relative, base, step, result),
        step.operator.fixed_result(base@) is Some,
    ensures
        exists|variant: PixelBuffer|
            Some(variant@) == step.operator.fixed_result(base@) && #[trigger] written(
                write,
                output_path(relative, step.name@),
                variant,
                result,
            ),
{
    let outcome = choose|outcome: Option<PixelBuffer>|
        #[trigger] step_applied(draw, base, step, outcome) && match outcome {
            Some(variant) => written(write, output_path(relative, step.name@), variant, result),
            None => result is Ok,
        };
    let variant = outcome.unwrap();
    assert(written(write, output_path(relative, step.name@), variant, result));
}

/// Where the work on an image went well, every branch of which the operator
/// takes no parameter has written what that operator makes of the base
/// variant, and the base variant is what the base steps left of the image,
/// one after the other.
pub proof fn lemma_fixed_branches_are_of_the_base<
    D: Fn(&PixelBuffer, &Step) -> Drawn,
    W: Fn(&Vec<String>, &PixelBuffer) -> Result<(), E>,
    E,
>(
    draw: D,
    write: W,
    plan: JobPlan,
    relative: Seq<Seq<char>>,
    img: PixelBuffer,
    done: Result<(), E>,
    k: int,
)
    requires
        image_done(draw, write, plan, relative, img, done),
        done is Ok,
        !plan.save_base,
        0 <= k < plan.branches@.len(),
        plan.branches@[k].operator.takes_no_parameter(),
    ensures
        exists|outcomes: Seq<Option<PixelBuffer>>, variant: PixelBuffer, result: Result<(), E>|
            #![trigger
                are_outcomes(draw, img, plan.base@, outcomes),
                written(write, output_path(relative, plan.branches@[k].name@), variant, result),
            ]
            are_outcomes(draw, img, plan.base@, outcomes) && result is Ok && Some(variant@)
                == plan.branches@[k].operator.fixed_result(base_after(img, outcomes)@)
                && written(write, output_path(relative, plan.branches@[k].name@), variant, result),
{
    let first = choose|first: Result<(), E>|
        #[trigger] written(write, unchanged_path(relative), img, first) && if first is Err {
            done == first
        } else {
            exists|outcomes: Seq<Option<PixelBuffer>>|
                are_outcomes(draw, img, plan.base@, outcomes) && variants_done(
                    draw,
                    write,
                    plan,
                    relative,
                    #[trigger] base_after(img, outcomes),
                    done,
                )
        };
    let outcomes = choose|outcomes: Seq<Option<PixelBuffer>>|
        are_outcomes(draw, img, plan.base@, outcomes) && variants_done(
            draw,
            write,
            plan,
            relative,
            #[trigger] base_after(img, outcomes),
            done,
        );
    let base = base_after(img, outcomes);
    let results = choose|results: Seq<Result<(), E>>|
        branches_done(draw, write, relative, base, plan.branches@, results, done);
    let step = plan.branches@[k];
    assert(branch_done(draw, write, relative, base, step, results[k]));
    assert(results[k] is Ok) by {
        if k < results.len() - 1 {
        } else {
            assert(results[k] == results.last());
        }
    }
    lemma_fixed_branch_is_of_the_base(draw, write, relative, base, step, results[k]);
    let variant = choose|variant: PixelBuffer|
        Some(variant@) == step.operator.fixed_result(base@) && #[trigger] written(
            write,
            output_path(relative, step.name@),
            variant,
            results[k],
        );
    assert(are_outcomes(draw, img, plan.base@, outcomes) && written(
        write,
        output_path(relative, plan.branches@[k].name@),
        variant,
        results[k],
    ));
}

/// Applies one branch to the base variant and writes what it gives.
pub fn write_branch<
    D: Fn(&PixelBuffer, &Step) -> Drawn,
    W: Fn(&Vec<String>, &PixelBuffer) -> Result<(), E>,
    E,
>(relative: &Vec<String>, base: &PixelBuffer, step: &Step, draw: &D, write: &W) -> (result: Result<
    (),
    E,
>)
    requires
        call_requires(*draw, (base, step)),
        forall|file: Vec<String>, img: PixelBuffer| #[trigger] call_requires(*write, (&file, &img)),
    ensures
        branch_done(*draw, *write, texts(relative@), *base, *step, result),
{
    let outcome = apply_step(base, step, draw);
    match outcome {
        Some(variant) => {
            let path = output_components(relative, step.name.as_str());
            let result = write(&path, &variant);
            assert(written(
                *write,
                output_path(texts(relative@), step.name@),
                variant,
                result,
            ));
            assert(step_applied(*draw, *base, *step, Some(variant)));
            result
        },
        None => {
            assert(step_applied(*draw, *base, *step, None::<PixelBuffer>));
            Ok(())
        },
    }
}

/// Writes the variants of the base variant `base`, as the plan says.
pub fn write_variants<
    D: Fn(&PixelBuffer, &Step) -> Drawn,
    W: Fn(&Vec<String>, &PixelBuffer) -> Result<(), E>,
    E,
>(plan: &JobPlan, relative: &Vec<String>, base: &PixelBuffer, draw: &D, write: &W) -> (done:
    Result<(), E>)
    requires
        forall|b: PixelBuffer, k: int|
            0 <= k < plan.branches@.len() ==> #[trigger] call_requires(
                *draw,
                (&b, &plan.branches@[k]),
            ),
        forall|file: Vec<String>, img: PixelBuffer| #[trigger] call_requires(*write, (&file, &img)),
    ensures
        variants_done(*draw, *write, *plan, texts(relative@), *base, done),
{
    if plan.save_base {
        let path = output_components(relative, "shifted");
        let done = write(&path, base);
        assert(written(*write, output_path(texts(relative@), "shifted"@), *base, done));
        return done;
    }
    let ghost mut results: Seq<Result<(), E>> = Seq::empty();
    let mut i: usize = 0;
    while i < plan.branches.len()
        invariant
            !plan.save_base,
            i <= plan.branches@.len(),
            results.len() == i,
            forall|k: int|
                0 <= k < i ==> branch_done(
                    *draw,
                    *write,
                    texts(relative@),
                    *base,
                    plan.branches@[k],
                    #[trigger] results[k],
                ),
            forall|k: int| 0 <= k < i ==> (#[trigger] results[k]) is Ok,
            forall|b: PixelBuffer, k: int|
                0 <= k < plan.branches@.len() ==> #[trigger] call_requires(
                    *draw,
                    (&b, &plan.branches@[k]),
                ),
            forall|file: Vec<String>, img: PixelBuffer| #[trigger]
                call_requires(*write, (&file, &img)),
        decreases plan.branches@.len() - i,
    {
        assert(call_requires(*draw, (base, &plan.branches@[i as int])));
        let result = write_branch(relative, base, &plan.branches[i], draw, write);
        proof {
            results = results.push(result);
        }
        if result.is_err() {
            assert(branches_done(
                *draw,
                *write,
                texts(relative@),
                *base,
                plan.branches@,
                results,
                result,
            ));
            assert(variants_done(*draw, *write, *plan, texts(relative@), *base, result));
            return result;
        }
        i += 1;
    }
    let done: Result<(), E> = Ok(());
    proof {
        assert(branches_done(
            *draw,
            *write,
            texts(relative@),
            *base,
            plan.branches@,
            results,
            done,
        ));
        assert(variants_done(*draw, *write, *plan, texts(relative@), *base, done));
    }
    done
}

/// Does the whole work on the image of the input at `relative`: writes it
/// unchanged, makes the base variant, and writes the variants. Stops at the
/// first failure to write.
pub fn process_single<
    D: Fn(&PixelBuffer, &Step) -> Drawn,
    W: Fn(&Vec<String>, &PixelBuffer) -> Result<(), E>,
    E,
>(plan: &JobPlan, relative: &Vec<String>, img: PixelBuffer, draw: &D, write: &W) -> (done: Result<
    (),
    E,
>)
    requires
        forall|b: PixelBuffer, k: int|
            0 <= k < plan.base@.len() ==> #[trigger] call_requires(*draw, (&b, &plan.base@[k])),
        forall|b: PixelBuffer, k: int|
            0 <= k < plan.branches@.len() ==> #[trigger] call_requires(
                *draw,
                (&b, &plan.branches@[k]),
            ),
        forall|file: Vec<String>, img: PixelBuffer| #[trigger] call_requires(*write, (&file, &img)),
    ensures
        image_done(*draw, *write, *plan, texts(relative@), img, done),
{
    let path = unchanged_components(relative);
    let first = write(&path, &img);
    assert(written(*write, unchanged_path(texts(relative@)), img, first));
    if first.is_err() {
        return first;
    }
    let ghost unchanged = img;
    let base = apply_base_steps(img, &plan.base, draw);
    let done = write_variants(plan, relative, &base, draw, write);
    proof {
        let outcomes = choose|outcomes: Seq<Option<PixelBuffer>>|
            are_outcomes(*draw, unchanged, plan.base@, outcomes) && base == base_after(
                unchanged,
                outcomes,
            );
        assert(variants_done(
            *draw,
            *write,
            *plan,
            texts(relative@),
            base_after(unchanged, outcomes),
            done,
        ));
    }
    done
}

} // verus!
