use augmentor::ops::{brighten, fliph, grayscale, invert};
use augmentor::pipeline::{
    apply_base_steps, apply_step, is_always, plan_job, plan_job_for_stem, process_single,
    split_transformations, write_branch, write_variants, Drawn, JobPlan, Step,
};
use augmentor::raster::PixelBuffer;
use augmentor::registry::{Operator, TransformationFactory};
use augmentor::seed::derive_seed_for_transform;
use augmentor::shift::{shift_image, ShiftAxis};
use std::cell::RefCell;

fn strings(names: &[&str]) -> Vec<String> {
    names.iter().map(|name| name.to_string()).collect()
}

fn path(components: &[&str]) -> Vec<String> {
    strings(components)
}

#[test]
fn shifts_are_applied_to_every_image() {
    assert!(is_always("hor_shift"));
    assert!(is_always("ver_shift"));
    assert!(!is_always("rotate90"));
    assert!(!is_always("HOR_SHIFT"));
    assert!(!is_always("hor_shift "));
    assert!(!is_always(""));
}

#[test]
fn split_keeps_the_order_of_both_lists() {
    let list = strings(&["grayscale", "ver_shift", "foo", "hor_shift", "invert", "ver_shift"]);
    let (always, one_time) = split_transformations(&list);
    assert_eq!(always, vec!["ver_shift", "hor_shift", "ver_shift"]);
    assert_eq!(one_time, vec!["grayscale", "foo", "invert"]);
}

#[test]
fn split_of_nothing() {
    let list: Vec<String> = Vec::new();
    let (always, one_time) = split_transformations(&list);
    assert!(always.is_empty());
    assert!(one_time.is_empty());
}

#[test]
fn plan_with_shifts_only_saves_the_base_variant() {
    let factory = TransformationFactory::new();
    let plan = plan_job_for_stem("cat", &factory, &["hor_shift", "ver_shift"], &[], 42);
    assert!(plan.save_base);
    assert!(plan.branches.is_empty());
    assert!(plan.skipped.is_empty());
    assert_eq!(plan.base.len(), 2);
    assert_eq!(plan.base[0].name, "hor_shift");
    assert_eq!(plan.base[0].operator, Operator::ShiftH);
    assert_eq!(plan.base[0].seed, derive_seed_for_transform("cat", 42, "hor_shift"));
    assert_eq!(plan.base[1].name, "ver_shift");
    assert_eq!(plan.base[1].operator, Operator::ShiftV);
    assert_eq!(plan.base[1].seed, derive_seed_for_transform("cat", 42, "ver_shift"));
    assert_eq!(
        plan.output_paths(&path(&["pets", "cat.png"])),
        vec![path(&["pets", "cat.png", "cat.png"]), path(&["pets", "cat.png", "cat_shifted.png"])]
    );
}

#[test]
fn plan_without_transformations_still_saves_the_base_variant() {
    let factory = TransformationFactory::new();
    let plan = plan_job_for_stem("cat", &factory, &[], &[], 42);
    assert!(plan.save_base);
    assert!(plan.base.is_empty());
    assert!(plan.branches.is_empty());
    assert_eq!(
        plan.output_paths(&path(&["cat.png"])),
        vec![path(&["cat.png", "cat.png"]), path(&["cat.png", "cat_shifted.png"])]
    );
}

#[test]
fn plan_composes_shifts_once_and_branches_from_the_base() {
    let factory = TransformationFactory::new();
    let list = strings(&["hor_shift", "ver_shift", "grayscale"]);
    let (always, one_time) = split_transformations(&list);
    for stem in ["a", "b", "c"] {
        let plan = plan_job_for_stem(stem, &factory, &always, &one_time, 42);
        assert!(!plan.save_base);
        assert_eq!(plan.base.len(), 2);
        assert_eq!(plan.base[0].operator, Operator::ShiftH);
        assert_eq!(plan.base[1].operator, Operator::ShiftV);
        assert_eq!(plan.branches.len(), 1);
        assert_eq!(plan.branches[0].name, "grayscale");
        assert_eq!(plan.branches[0].operator, Operator::Grayscale);
        assert_eq!(plan.branches[0].seed, derive_seed_for_transform(stem, 42, "grayscale"));
        let name = format!("{stem}.png");
        assert_eq!(
            plan.output_paths(&path(&[&name])),
            vec![path(&[&name, &name]), path(&[&name, &format!("{stem}_grayscale.png")])]
        );
    }
}

#[test]
fn plan_gives_one_branch_for_each_one_time_transformation() {
    let factory = TransformationFactory::new();
    let plan =
        plan_job_for_stem("cat", &factory, &["ver_shift"], &["invert", "rotate90", "invert"], 7);
    assert_eq!(plan.base.len(), 1);
    assert_eq!(plan.branches.len(), 3);
    assert_eq!(plan.branches[0].operator, Operator::Invert);
    assert_eq!(plan.branches[1].operator, Operator::Rotate90);
    assert_eq!(plan.branches[2].operator, Operator::Invert);
    assert_eq!(plan.branches[0].seed, plan.branches[2].seed);
    assert_ne!(plan.branches[0].seed, plan.branches[1].seed);
    assert_eq!(
        plan.output_paths(&path(&["out.png"])),
        vec![
            path(&["out.png", "out.png"]),
            path(&["out.png", "out_invert.png"]),
            path(&["out.png", "out_rotate90.png"]),
            path(&["out.png", "out_invert.png"]),
        ]
    );
}

#[test]
fn unknown_names_are_passed_over() {
    let factory = TransformationFactory::new();
    let with = plan_job_for_stem(
        "cat",
        &factory,
        &["hor_shift"],
        &["foo", "grayscale", "bar", "invert"],
        42,
    );
    let without = plan_job_for_stem("cat", &factory, &["hor_shift"], &["grayscale", "invert"], 42);
    assert_eq!(with.skipped, vec!["foo", "bar"]);
    assert!(without.skipped.is_empty());
    assert_eq!(with.branches.len(), without.branches.len());
    for (a, b) in with.branches.iter().zip(without.branches.iter()) {
        assert_eq!(a.name, b.name);
        assert_eq!(a.operator, b.operator);
        assert_eq!(a.seed, b.seed);
    }
    let paths = with.output_paths(&path(&["cat.png"]));
    assert_eq!(
        paths,
        vec![
            path(&["cat.png", "cat.png"]),
            path(&["cat.png", "cat_grayscale.png"]),
            path(&["cat.png", "cat_invert.png"]),
        ]
    );
    assert!(!paths.contains(&path(&["cat.png", "cat_foo.png"])));
}

#[test]
fn an_unknown_name_alone_leaves_only_the_unchanged_image() {
    let factory = TransformationFactory::new();
    let plan = plan_job_for_stem("cat", &factory, &["hor_shift"], &["foo"], 42);
    assert!(!plan.save_base);
    assert!(plan.branches.is_empty());
    assert_eq!(plan.skipped, vec!["foo"]);
    assert_eq!(plan.output_paths(&path(&["cat.png"])), vec![path(&["cat.png", "cat.png"])]);
}

#[test]
fn skipped_names_list_the_shifts_first() {
    let mut factory = TransformationFactory::new();
    factory.register("negative", Operator::Invert);
    let plan = plan_job_for_stem("cat", &factory, &["x_shift"], &["foo", "negative"], 42);
    assert!(plan.base.is_empty());
    assert_eq!(plan.skipped, vec!["x_shift", "foo"]);
    assert_eq!(plan.branches.len(), 1);
    assert_eq!(plan.branches[0].name, "negative");
    assert_eq!(plan.branches[0].operator, Operator::Invert);
}

#[test]
fn plan_job_derives_seeds_from_the_lowercase_stem() {
    let factory = TransformationFactory::new();
    let plan = plan_job("CaT", &factory, &["hor_shift"], &["grayscale"], 42);
    assert_eq!(plan.base[0].seed, derive_seed_for_transform("cat", 42, "hor_shift"));
    assert_eq!(plan.branches[0].seed, derive_seed_for_transform("cat", 42, "grayscale"));
    assert_ne!(plan.base[0].seed, derive_seed_for_transform("CaT", 42, "hor_shift"));
    let plan = plan_job("ŻABA", &factory, &["hor_shift"], &[], 42);
    assert_eq!(plan.base[0].seed, derive_seed_for_transform("żaba", 42, "hor_shift"));
}

#[test]
fn plans_do_not_depend_on_the_order_of_work() {
    let factory = TransformationFactory::new();
    let stems = ["a", "b", "c", "d"];
    let forward: Vec<u64> = stems
        .iter()
        .map(|stem| plan_job(stem, &factory, &["hor_shift"], &[], 9).base[0].seed)
        .collect();
    let mut backward: Vec<u64> = stems
        .iter()
        .rev()
        .map(|stem| plan_job(stem, &factory, &["hor_shift"], &[], 9).base[0].seed)
        .collect();
    backward.reverse();
    assert_eq!(forward, backward);
}

fn two_pixels() -> PixelBuffer {
    PixelBuffer::from_raw(2, 1, vec![1, 2, 3, 4, 5, 6, 7, 8]).unwrap()
}

fn draw_known(_: &PixelBuffer, step: &Step) -> Drawn {
    match step.operator {
        Operator::ShiftH | Operator::ShiftV => Drawn::Shift { sampled: 1, keep: true },
        Operator::Brighten => Drawn::Delta(10),
        Operator::Contrast => Drawn::Image(PixelBuffer::from_raw(1, 1, vec![9, 9, 9, 9]).unwrap()),
        _ => Drawn::Failed,
    }
}

fn step(name: &str, operator: Operator) -> Step {
    Step { name: name.to_string(), operator, seed: 0 }
}

type Written = RefCell<Vec<(Vec<String>, Vec<u8>)>>;

fn paths_of(written: &Written) -> Vec<Vec<String>> {
    written.borrow().iter().map(|(path, _)| path.clone()).collect()
}

#[test]
fn a_step_without_parameter_draws_nothing() {
    let never = |_: &PixelBuffer, _: &Step| -> Drawn { panic!("nothing is drawn") };
    let img = two_pixels();
    let out = apply_step(&img, &step("mirror", Operator::FlipH), &never).unwrap();
    assert_eq!(out.into_raw(), fliph(&img).into_raw());
    let out = apply_step(&img, &step("grayscale", Operator::Grayscale), &never).unwrap();
    assert_eq!(out.into_raw(), grayscale(&img).into_raw());
}

#[test]
fn a_step_with_parameter_uses_what_is_drawn() {
    let img = PixelBuffer::from_raw(3, 1, vec![1, 1, 1, 1, 2, 2, 2, 2, 3, 3, 3, 3]).unwrap();
    let sampled = |_: &PixelBuffer, _: &Step| Drawn::Shift { sampled: 1, keep: false };
    let out = apply_step(&img, &step("hor_shift", Operator::ShiftH), &sampled).unwrap();
    assert_eq!(out.into_raw(), shift_image(&img, 2, ShiftAxis::Horizontal).into_raw());
    let out = apply_step(&img, &step("ver_shift", Operator::ShiftV), &sampled).unwrap();
    assert_eq!(out.into_raw(), img.as_raw().clone());
    let out = apply_step(&img, &step("brightness", Operator::Brighten), &draw_known).unwrap();
    assert_eq!(out.into_raw(), brighten(&img, 10).into_raw());
    let out = apply_step(&img, &step("contrast", Operator::Contrast), &draw_known).unwrap();
    assert_eq!(out.into_raw(), vec![9, 9, 9, 9]);
    let degrees = |_: &PixelBuffer, _: &Step| Drawn::Degrees(60);
    let out = apply_step(&img, &step("hue_rotation", Operator::HueRotate), &degrees).unwrap();
    assert_eq!((out.width(), out.height()), (3, 1));
    for x in 0..3 {
        assert_eq!(out.get_pixel(x, 0)[3], img.get_pixel(x, 0)[3]);
    }
    let red = PixelBuffer::from_raw(1, 1, vec![200, 30, 30, 255]).unwrap();
    let out = apply_step(&red, &step("hue_rotation", Operator::HueRotate), &degrees).unwrap();
    assert_ne!(out.into_raw(), vec![200, 30, 30, 255]);
}

#[test]
fn a_draw_that_does_not_fit_fails_the_step() {
    let img = two_pixels();
    let degrees = |_: &PixelBuffer, _: &Step| Drawn::Degrees(60);
    assert!(apply_step(&img, &step("hor_shift", Operator::ShiftH), &degrees).is_none());
    assert!(apply_step(&img, &step("brightness", Operator::Brighten), &degrees).is_none());
    assert!(apply_step(&img, &step("saturation", Operator::Saturate), &draw_known).is_none());
    let failed = |_: &PixelBuffer, _: &Step| Drawn::Failed;
    assert!(apply_step(&img, &step("contrast", Operator::Contrast), &failed).is_none());
    assert!(apply_step(&img, &step("invert", Operator::Invert), &failed).is_some());
}

#[test]
fn base_steps_are_applied_one_after_the_other() {
    let steps = vec![step("mirror", Operator::FlipH), step("invert", Operator::Invert)];
    let base = apply_base_steps(two_pixels(), &steps, &draw_known);
    assert_eq!(base.into_raw(), vec![250, 249, 248, 8, 254, 253, 252, 4]);
}

#[test]
fn a_failing_base_step_is_passed_over() {
    let steps = vec![
        step("mirror", Operator::FlipH),
        step("hue_rotation", Operator::HueRotate),
        step("invert", Operator::Invert),
        step("saturation", Operator::Saturate),
    ];
    let base = apply_base_steps(two_pixels(), &steps, &draw_known);
    assert_eq!(base.into_raw(), vec![250, 249, 248, 8, 254, 253, 252, 4]);
    let steps = vec![step("saturation", Operator::Saturate)];
    let base = apply_base_steps(two_pixels(), &steps, &draw_known);
    assert_eq!(base.into_raw(), vec![1, 2, 3, 4, 5, 6, 7, 8]);
}

#[test]
fn no_base_steps_leave_the_image() {
    let base = apply_base_steps(two_pixels(), &Vec::new(), &draw_known);
    assert_eq!(base.into_raw(), vec![1, 2, 3, 4, 5, 6, 7, 8]);
}

#[test]
fn an_image_is_written_unchanged_then_in_its_variants() {
    let factory = TransformationFactory::new();
    let plan = plan_job_for_stem("cat", &factory, &[], &["mirror", "invert"], 1);
    let written: Written = RefCell::new(Vec::new());
    let write = |path: &Vec<String>, img: &PixelBuffer| -> Result<(), String> {
        written.borrow_mut().push((path.clone(), img.as_raw().clone()));
        Ok(())
    };
    let relative = path(&["pets", "cat.png"]);
    assert_eq!(process_single(&plan, &relative, two_pixels(), &draw_known, &write), Ok(()));
    assert_eq!(
        *written.borrow(),
        vec![
            (path(&["pets", "cat.png", "cat.png"]), vec![1, 2, 3, 4, 5, 6, 7, 8]),
            (path(&["pets", "cat.png", "cat_mirror.png"]), vec![5, 6, 7, 8, 1, 2, 3, 4]),
            (path(&["pets", "cat.png", "cat_invert.png"]), vec![254, 253, 252, 4, 250, 249, 248, 8]),
        ]
    );
    assert_eq!(paths_of(&written), plan.output_paths(&relative));
}

#[test]
fn grayscale_is_taken_of_the_shifted_base() {
    let factory = TransformationFactory::new();
    let list = strings(&["hor_shift", "ver_shift", "grayscale"]);
    let (always, one_time) = split_transformations(&list);
    let plan = plan_job("Cat", &factory, &always, &one_time, 42);
    let img = PixelBuffer::from_raw(
        2,
        2,
        vec![10, 20, 30, 255, 40, 50, 60, 255, 70, 80, 90, 255, 100, 110, 120, 255],
    )
    .unwrap();
    let written: Written = RefCell::new(Vec::new());
    let write = |path: &Vec<String>, img: &PixelBuffer| -> Result<(), String> {
        written.borrow_mut().push((path.clone(), img.as_raw().clone()));
        Ok(())
    };
    let copy = PixelBuffer::from_raw(2, 2, img.as_raw().clone()).unwrap();
    assert_eq!(process_single(&plan, &path(&["Cat.png"]), img, &draw_known, &write), Ok(()));
    let shifted = shift_image(&shift_image(&copy, 1, ShiftAxis::Horizontal), 1, ShiftAxis::Vertical);
    assert_eq!(
        *written.borrow(),
        vec![
            (path(&["Cat.png", "Cat.png"]), copy.as_raw().clone()),
            (path(&["Cat.png", "Cat_grayscale.png"]), grayscale(&shifted).into_raw()),
        ]
    );
    assert_ne!(grayscale(&shifted).into_raw(), grayscale(&copy).into_raw());
}

#[test]
fn branches_start_from_the_base_variant_and_not_from_each_other() {
    let plan = JobPlan {
        base: vec![step("mirror", Operator::FlipH)],
        save_base: false,
        branches: vec![step("invert", Operator::Invert), step("mirror", Operator::FlipH)],
        skipped: Vec::new(),
    };
    let written: Written = RefCell::new(Vec::new());
    let write = |path: &Vec<String>, img: &PixelBuffer| -> Result<(), String> {
        written.borrow_mut().push((path.clone(), img.as_raw().clone()));
        Ok(())
    };
    assert_eq!(process_single(&plan, &path(&["a.png"]), two_pixels(), &draw_known, &write), Ok(()));
    assert_eq!(
        *written.borrow(),
        vec![
            (path(&["a.png", "a.png"]), vec![1, 2, 3, 4, 5, 6, 7, 8]),
            (path(&["a.png", "a_invert.png"]), vec![250, 249, 248, 8, 254, 253, 252, 4]),
            (path(&["a.png", "a_mirror.png"]), vec![1, 2, 3, 4, 5, 6, 7, 8]),
        ]
    );
}

#[test]
fn the_base_variant_is_written_where_nothing_else_is_asked_for() {
    let plan = JobPlan {
        base: vec![step("mirror", Operator::FlipH), step("saturation", Operator::Saturate)],
        save_base: true,
        branches: Vec::new(),
        skipped: Vec::new(),
    };
    let written: Written = RefCell::new(Vec::new());
    let write = |path: &Vec<String>, img: &PixelBuffer| -> Result<(), String> {
        written.borrow_mut().push((path.clone(), img.as_raw().clone()));
        Ok(())
    };
    assert_eq!(process_single(&plan, &path(&["a.png"]), two_pixels(), &draw_known, &write), Ok(()));
    assert_eq!(
        *written.borrow(),
        vec![
            (path(&["a.png", "a.png"]), vec![1, 2, 3, 4, 5, 6, 7, 8]),
            (path(&["a.png", "a_shifted.png"]), vec![5, 6, 7, 8, 1, 2, 3, 4]),
        ]
    );
}

#[test]
fn a_failing_branch_writes_nothing_and_the_others_go_on() {
    let plan = JobPlan {
        base: Vec::new(),
        save_base: false,
        branches: vec![
            step("hue_rotation", Operator::HueRotate),
            step("invert", Operator::Invert),
            step("saturation", Operator::Saturate),
        ],
        skipped: Vec::new(),
    };
    let written: Written = RefCell::new(Vec::new());
    let write = |path: &Vec<String>, img: &PixelBuffer| -> Result<(), String> {
        written.borrow_mut().push((path.clone(), img.as_raw().clone()));
        Ok(())
    };
    assert_eq!(
        write_variants(&plan, &path(&["a.png"]), &two_pixels(), &draw_known, &write),
        Ok(())
    );
    assert_eq!(paths_of(&written), vec![path(&["a.png", "a_invert.png"])]);
}

#[test]
fn the_first_failure_to_write_ends_the_work() {
    let plan = JobPlan {
        base: Vec::new(),
        save_base: false,
        branches: vec![
            step("invert", Operator::Invert),
            step("mirror", Operator::FlipH),
            step("flip", Operator::Invert),
        ],
        skipped: Vec::new(),
    };
    let written: Written = RefCell::new(Vec::new());
    let write = |path: &Vec<String>, img: &PixelBuffer| -> Result<(), String> {
        if path.last().map(String::as_str) == Some("a_mirror.png") {
            return Err("cannot write a_mirror.png".to_string());
        }
        written.borrow_mut().push((path.clone(), img.as_raw().clone()));
        Ok(())
    };
    assert_eq!(
        process_single(&plan, &path(&["a.png"]), two_pixels(), &draw_known, &write),
        Err("cannot write a_mirror.png".to_string())
    );
    assert_eq!(
        paths_of(&written),
        vec![path(&["a.png", "a.png"]), path(&["a.png", "a_invert.png"])]
    );

    let refuse = |path: &Vec<String>, _: &PixelBuffer| -> Result<(), String> {
        Err(format!("cannot write {}", path.join("/")))
    };
    assert_eq!(
        process_single(&plan, &path(&["a.png"]), two_pixels(), &draw_known, &refuse),
        Err("cannot write a.png/a.png".to_string())
    );
}

#[test]
fn one_branch_is_applied_and_written() {
    let written: Written = RefCell::new(Vec::new());
    let write = |path: &Vec<String>, img: &PixelBuffer| -> Result<(), String> {
        written.borrow_mut().push((path.clone(), img.as_raw().clone()));
        Ok(())
    };
    let base = two_pixels();
    let relative = path(&["b.png"]);
    assert_eq!(
        write_branch(&relative, &base, &step("invert", Operator::Invert), &draw_known, &write),
        Ok(())
    );
    assert_eq!(
        write_branch(&relative, &base, &step("saturation", Operator::Saturate), &draw_known, &write),
        Ok(())
    );
    assert_eq!(
        *written.borrow(),
        vec![(path(&["b.png", "b_invert.png"]), vec![254, 253, 252, 4, 250, 249, 248, 8])]
    );
}
