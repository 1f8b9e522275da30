use augmentor::registry::{Operator, TransformationFactory};

#[test]
fn new_factory_knows_the_catalogue() {
    let factory = TransformationFactory::new();
    let expected = [
        ("hor_shift", Operator::ShiftH),
        ("ver_shift", Operator::ShiftV),
        ("rotate90", Operator::Rotate90),
        ("rotate180", Operator::Rotate180),
        ("rotate270", Operator::Rotate270),
        ("mirror", Operator::FlipH),
        ("flip", Operator::FlipV),
        ("hue_rotation", Operator::HueRotate),
        ("saturation", Operator::Saturate),
        ("brightness", Operator::Brighten),
        ("contrast", Operator::Contrast),
        ("grayscale", Operator::Grayscale),
        ("invert", Operator::Invert),
    ];
    for (name, operator) in expected {
        assert_eq!(factory.create(name), Some(operator));
    }
}

#[test]
fn create_returns_nothing_for_unknown_names() {
    let factory = TransformationFactory::new();
    assert_eq!(factory.create("foo"), None);
    assert_eq!(factory.create(""), None);
    assert_eq!(factory.create("Grayscale"), None);
    assert_eq!(factory.create("grayscale "), None);
    assert_eq!(factory.create("crop"), None);
    assert_eq!(factory.create("color_norm"), None);
}

#[test]
fn register_adds_a_name() {
    let mut factory = TransformationFactory::new();
    assert_eq!(factory.create("negative"), None);
    factory.register("negative", Operator::Invert);
    assert_eq!(factory.create("negative"), Some(Operator::Invert));
    assert_eq!(factory.create("invert"), Some(Operator::Invert));
}

#[test]
fn register_replaces_an_earlier_registration() {
    let mut factory = TransformationFactory::new();
    factory.register("flip", Operator::FlipH);
    assert_eq!(factory.create("flip"), Some(Operator::FlipH));
    factory.register("flip", Operator::Rotate180);
    assert_eq!(factory.create("flip"), Some(Operator::Rotate180));
    assert_eq!(factory.create("mirror"), Some(Operator::FlipH));
}
