//! The transformations that a run can ask for, and the registry that finds
//! one by its name.

use vstd::prelude::*;
use vstd::string::*;

verus! {

/// A kind of transformation.
#[derive(Clone, Copy, Debug, PartialEq, Eq, Structural)]
pub enum Operator {
    /// Cyclic shift along the horizontal axis.
    ShiftH,
    /// Cyclic shift along the vertical axis.
    ShiftV,
    /// Rotation by a quarter turn clockwise.
    Rotate90,
    /// Rotation by a half turn.
    Rotate180,
    /// Rotation by three quarter turns clockwise.
    Rotate270,
    /// Mirror image: left and right change places.
    FlipH,
    /// Top and bottom change places.
    FlipV,
    /// Rotation of every pixel's hue.
    HueRotate,
    /// Scaling of every pixel's saturation.
    Saturate,
    /// The same amount added to every colour channel.
    Brighten,
    /// Contrast stretched or compressed round mid-grey.
    Contrast,
    /// Every pixel replaced by its luma.
    Grayscale,
    /// Every colour channel replaced by its complement.
    Invert,
}

/// The map that a list of registrations stands for: a later registration of
/// a name replaces an earlier one.
pub open spec fn registered(entries: Seq<(String, Operator)>) -> Map<Seq<char>, Operator>
    decreases entries.len(),
{
    if entries.len() == 0 {
        Map::empty()
    } else {
        registered(entries.drop_last()).insert(entries.last().0@, entries.last().1)
    }
}

/// The registrations that every new factory holds.
pub open spec fn default_registry() -> Map<Seq<char>, Operator> {
    Map::<Seq<char>, Operator>::empty().insert("hor_shift"@, Operator::ShiftH).insert(
        "ver_shift"@,
        Operator::ShiftV,
    ).insert("rotate90"@, Operator::Rotate90).insert("rotate180"@, Operator::Rotate180).insert(
        "rotate270"@,
        Operator::Rotate270,
    ).insert("mirror"@, Operator::FlipH).insert("flip"@, Operator::FlipV).insert(
        "hue_rotation"@,
        Operator::HueRotate,
    ).insert("saturation"@, Operator::Saturate).insert("brightness"@, Operator::Brighten).insert(
        "contrast"@,
        Operator::Contrast,
    ).insert("grayscale"@, Operator::Grayscale).insert("invert"@, Operator::Invert)
}

/// Finds transformations by name.
pub struct TransformationFactory {
    entries: Vec<(String, Operator)>,
}

impl View for TransformationFactory {
    type V = Map<Seq<char>, Operator>;

    closed spec fn view(&self) -> Map<Seq<char>, Operator> {
        registered(self.entries@)
    }
}

/// A name that no later registration repeats is found where it stands.
proof fn lemma_registered_lookup(entries: Seq<(String, Operator)>, name: Seq<char>, from: int)
    requires
        0 <= from <= entries.len(),
        forall|j: int| from <= j < entries.len() ==> entries[j].0@ != name,
    ensures
        from == 0 ==> !registered(entries).contains_key(name),
        from > 0 && entries[from - 1].0@ == name ==> registered(entries).contains_key(name)
            && registered(entries)[name] == entries[from - 1].1,
    decreases entries.len(),
{
    if entries.len() > 0 {
        if from < entries.len() {
            lemma_registered_lookup(entries.drop_last(), name, from);
        }
    }
}

impl TransformationFactory {
    /// A factory that knows every transformation of the catalogue under its
    /// usual name.
    pub fn new() -> (factory: TransformationFactory)
        ensures
            factory@ == default_registry(),
    {
        let mut factory = TransformationFactory { entries: Vec::new() };
        factory.register("hor_shift", Operator::ShiftH);
        factory.register("ver_shift", Operator::ShiftV);
        factory.register("rotate90", Operator::Rotate90);
        factory.register("rotate180", Operator::Rotate180);
        factory.register("rotate270", Operator::Rotate270);
        factory.register("mirror", Operator::FlipH);
        factory.register("flip", Operator::FlipV);
        factory.register("hue_rotation", Operator::HueRotate);
        factory.register("saturation", Operator::Saturate);
        factory.register("brightness", Operator::Brighten);
        factory.register("contrast", Operator::Contrast);
        factory.register("grayscale", Operator::Grayscale);
        factory.register("invert", Operator::Invert);
        factory
    }

    /// The transformation registered under `name`, if there is one.
    pub fn create(&self, name: &str) -> (found: Option<Operator>)
        ensures
            found == (if self@.contains_key(name@) {
                Some(self@[name@])
            } else {
                None
            }),
    {
        let wanted = name.to_owned();
        let mut i = self.entries.len();
        while i > 0
            invariant
                i <= self.entries@.len(),
                wanted@ == name@,
                forall|j: int| i <= j < self.entries@.len() ==> self.entries@[j].0@ != name@,
            decreases i,
        {
            if self.entries[i - 1].0 == wanted {
                proof {
                    lemma_registered_lookup(self.entries@, name@, i as int);
                }
                return Some(self.entries[i - 1].1);
            }
            i -= 1;
        }
        proof {
            lemma_registered_lookup(self.entries@, name@, 0);
        }
        None
    }

    /// Registers `operator` under `name`, in place of what was registered
    /// under that name before.
    pub fn register(&mut self, name: &str, operator: Operator)
        ensures
            final(self)@ == old(self)@.insert(name@, operator),
    {
        let ghost entries = self.entries@;
        self.entries.push((name.to_owned(), operator));
        proof {
            assert(self.entries@.drop_last() =~= entries);
        }
    }
}

} // verus!
