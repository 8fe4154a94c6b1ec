use crate::model::{ArtMeshInfo, ModelSnapshot};
use crate::text::{
    is_blank, is_trim_of, normalize_relative_path, normalized_path, source_is_blank, str_equal, trim,
};
use vstd::prelude::*;

verus! {

/// Names a model parameter.
#[derive(Debug, Hash)]
pub struct ParameterId(pub String);

impl View for ParameterId {
    type V = Seq<char>;

    open spec fn view(&self) -> Seq<char> {
        self.0@
    }
}

impl Clone for ParameterId {
    fn clone(&self) -> (r: Self)
        ensures
            r@ == self@,
    {
        ParameterId(self.0.clone())
    }
}

impl PartialEq for ParameterId {
    fn eq(&self, other: &Self) -> (r: bool) {
        self.0 == other.0
    }
}

impl vstd::std_specs::cmp::PartialEqSpecImpl for ParameterId {
    open spec fn obeys_eq_spec() -> bool {
        true
    }

    open spec fn eq_spec(&self, other: &Self) -> bool {
        self@ == other@
    }
}

impl Eq for ParameterId {}

impl From<String> for ParameterId {
    fn from(value: String) -> (r: Self)
        ensures
            r@ == value@,
    {
        ParameterId(value)
    }
}

impl vstd::std_specs::convert::FromSpecImpl<String> for ParameterId {
    open spec fn obeys_from_spec() -> bool {
        true
    }

    open spec fn from_spec(v: String) -> Self {
        ParameterId(v)
    }
}

impl From<&str> for ParameterId {
    fn from(value: &str) -> (r: Self)
        ensures
            r@ == value@,
    {
        ParameterId(value.to_owned())
    }
}

impl vstd::std_specs::convert::FromSpecImpl<&str> for ParameterId {
    open spec fn obeys_from_spec() -> bool {
        false
    }

    open spec fn from_spec(v: &str) -> Self {
        arbitrary()
    }
}

impl ParameterId {
    pub fn as_ref(&self) -> (r: &str)
        ensures
            r@ == self@,
    {
        self.0.as_str()
    }
}

/// Names a model part.
#[derive(Debug, Hash)]
pub struct PartId(pub String);

impl View for PartId {
    type V = Seq<char>;

    open spec fn view(&self) -> Seq<char> {
        self.0@
    }
}

impl Clone for PartId {
    fn clone(&self) -> (r: Self)
        ensures
            r@ == self@,
    {
        PartId(self.0.clone())
    }
}

impl PartialEq for PartId {
    fn eq(&self, other: &Self) -> (r: bool) {
        self.0 == other.0
    }
}

impl vstd::std_specs::cmp::PartialEqSpecImpl for PartId {
    open spec fn obeys_eq_spec() -> bool {
        true
    }

    open spec fn eq_spec(&self, other: &Self) -> bool {
        self@ == other@
    }
}

impl Eq for PartId {}

impl From<String> for PartId {
    fn from(value: String) -> (r: Self)
        ensures
            r@ == value@,
    {
        PartId(value)
    }
}

impl vstd::std_specs::convert::FromSpecImpl<String> for PartId {
    open spec fn obeys_from_spec() -> bool {
        true
    }

    open spec fn from_spec(v: String) -> Self {
        PartId(v)
    }
}

impl From<&str> for PartId {
    fn from(value: &str) -> (r: Self)
        ensures
            r@ == value@,
    {
        PartId(value.to_owned())
    }
}

impl vstd::std_specs::convert::FromSpecImpl<&str> for PartId {
    open spec fn obeys_from_spec() -> bool {
        false
    }

    open spec fn from_spec(v: &str) -> Self {
        arbitrary()
    }
}

impl PartId {
    pub fn as_ref(&self) -> (r: &str)
        ensures
            r@ == self@,
    {
        self.0.as_str()
    }
}

/// The verdict of a build without the Cubism runtime on a model whose files were
/// resolved: a resolution error stands, missing files are reported, and otherwise the
/// runtime is unavailable.
pub open spec fn unavailable_verdict(resolved: Result<Vec<String>, String>) -> Seq<char> {
    match resolved {
        Err(e) => e@,
        Ok(missing) => if missing@.len() > 0 {
            "live2d_model_assets_missing"@
        } else {
            "live2d_runtime_unavailable"@
        },
    }
}

fn unavailable_error(resolved: Result<Vec<String>, String>) -> (r: String)
    ensures
        r@ == unavailable_verdict(resolved),
{
    match resolved {
        Err(e) => e,
        Ok(missing) => if missing.len() > 0 {
            "live2d_model_assets_missing".to_owned()
        } else {
            "live2d_runtime_unavailable".to_owned()
        },
    }
}

/// The art meshes of a model whose files were resolved.
pub fn inspect_art_meshes(resolved: Result<Vec<String>, String>) -> (r: Result<Vec<ArtMeshInfo>, String>)
    ensures
        match r {
            Ok(_) => false,
            Err(e) => e@ == unavailable_verdict(resolved),
        },
{
    Err(unavailable_error(resolved))
}

/// The art mesh metadata of a model whose files were resolved.
pub fn inspect_art_mesh_metadata(resolved: Result<Vec<String>, String>) -> (r: Result<Vec<ArtMeshInfo>, String>)
    ensures
        match r {
            Ok(_) => false,
            Err(e) => e@ == unavailable_verdict(resolved),
        },
{
    Err(unavailable_error(resolved))
}

/// The snapshot of a model whose files were resolved.
pub fn load_snapshot(resolved: Result<Vec<String>, String>) -> (r: Result<ModelSnapshot, String>)
    ensures
        match r {
            Ok(_) => false,
            Err(e) => e@ == unavailable_verdict(resolved),
        },
{
    Err(unavailable_error(resolved))
}

/// Shape of a physics rig.
#[derive(Debug, Clone, Copy, PartialEq, Eq, Structural)]
pub struct PhysicsStats {
    pub settings: usize,
    pub inputs: usize,
    pub outputs: usize,
    pub particles: usize,
}

/// Work done by one physics evaluation.
#[derive(Debug, Clone, Copy, PartialEq, Eq, Structural, Default)]
pub struct PhysicsEvaluationStats {
    pub output_writes: usize,
}

/// Number of inputs, outputs and particles of a physics setting.
#[derive(Debug, Clone, Copy, PartialEq, Eq, Structural)]
pub struct PhysicsSettingShape {
    pub inputs: usize,
    pub outputs: usize,
    pub particles: usize,
}

/// Sum of the inputs, outputs and particles of the first `n` settings.
pub open spec fn shape_totals(shapes: Seq<PhysicsSettingShape>, n: nat) -> (int, int, int)
    decreases n,
{
    if n == 0 {
        (0, 0, 0)
    } else {
        let t = shape_totals(shapes, (n - 1) as nat);
        let s = shapes[n - 1];
        (t.0 + s.inputs, t.1 + s.outputs, t.2 + s.particles)
    }
}

proof fn lemma_shape_totals_monotone(shapes: Seq<PhysicsSettingShape>, a: nat, b: nat)
    requires
        a <= b <= shapes.len(),
    ensures
        shape_totals(shapes, a).0 <= shape_totals(shapes, b).0,
        shape_totals(shapes, a).1 <= shape_totals(shapes, b).1,
        shape_totals(shapes, a).2 <= shape_totals(shapes, b).2,
    decreases b,
{
    if a < b {
        lemma_shape_totals_monotone(shapes, a, (b - 1) as nat);
    }
}

/// The shape of a physics rig with these settings.
pub fn physics_stats(shapes: &[PhysicsSettingShape]) -> (r: PhysicsStats)
    requires
        shape_totals(shapes@, shapes@.len()).0 <= usize::MAX,
        shape_totals(shapes@, shapes@.len()).1 <= usize::MAX,
        shape_totals(shapes@, shapes@.len()).2 <= usize::MAX,
    ensures
        r.settings == shapes@.len(),
        r.inputs == shape_totals(shapes@, shapes@.len()).0,
        r.outputs == shape_totals(shapes@, shapes@.len()).1,
        r.particles == shape_totals(shapes@, shapes@.len()).2,
{
    let mut inputs: usize = 0;
    let mut outputs: usize = 0;
    let mut particles: usize = 0;
    let mut i: usize = 0;
    while i < shapes.len()
        invariant
            i <= shapes@.len(),
            shape_totals(shapes@, shapes@.len()).0 <= usize::MAX,
            shape_totals(shapes@, shapes@.len()).1 <= usize::MAX,
            shape_totals(shapes@, shapes@.len()).2 <= usize::MAX,
            inputs == shape_totals(shapes@, i as nat).0,
            outputs == shape_totals(shapes@, i as nat).1,
            particles == shape_totals(shapes@, i as nat).2,
        decreases shapes@.len() - i,
    {
        proof {
            lemma_shape_totals_monotone(shapes@, (i + 1) as nat, shapes@.len());
        }
        inputs = inputs + shapes[i].inputs;
        outputs = outputs + shapes[i].outputs;
        particles = particles + shapes[i].particles;
        i = i + 1;
    }
    PhysicsStats { settings: shapes.len(), inputs, outputs, particles }
}

/// Which coordinate of the model a physics input reads.
#[derive(Debug, Clone, Copy, PartialEq, Eq, Structural)]
pub enum PhysicsSource {
    X,
    Y,
    Angle,
}

/// The physics input source a `physics3.json` type names; a missing type reads as empty.
pub fn parse_source_type(value: Option<&str>) -> (r: Result<PhysicsSource, String>)
    ensures
        match r {
            Ok(PhysicsSource::X) => value is Some && value->0@ == "X"@,
            Ok(PhysicsSource::Y) => value is Some && value->0@ == "Y"@,
            Ok(PhysicsSource::Angle) => value is Some && value->0@ == "Angle"@,
            Err(e) => e@ == "unsupported_physics_source_type"@ && (value is None || (value->0@ != "X"@
                && value->0@ != "Y"@ && value->0@ != "Angle"@)),
        },
{
    let text = match value {
        Some(text) => text,
        None => {
            return Err("unsupported_physics_source_type".to_owned());
        },
    };
    if str_equal(text, "X") {
        Ok(PhysicsSource::X)
    } else if str_equal(text, "Y") {
        Ok(PhysicsSource::Y)
    } else if str_equal(text, "Angle") {
        Ok(PhysicsSource::Angle)
    } else {
        Err("unsupported_physics_source_type".to_owned())
    }
}

/// The moc file that a model declares; a missing or blank declaration is refused.
pub fn declared_moc(moc: Option<&str>) -> (r: Result<&str, String>)
    ensures
        match moc {
            Some(m) => if is_blank(m@) {
                r matches Err(e) && e@ == "live2d_moc_not_declared"@
            } else {
                r == Ok::<&str, String>(m)
            },
            None => r matches Err(e) && e@ == "live2d_moc_not_declared"@,
        },
{
    match moc {
        Some(m) => if source_is_blank(m) {
            Err("live2d_moc_not_declared".to_owned())
        } else {
            Ok(m)
        },
        None => Err("live2d_moc_not_declared".to_owned()),
    }
}

/// The file of a motion entry, trimmed, and its path relative to the model with
/// slashes; an entry without a file, or with a blank one, names none.
pub fn motion_file_reference(file: Option<&str>) -> (r: Option<(&str, String)>)
    ensures
        match file {
            None => r is None,
            Some(f) => match r {
                None => is_blank(f@),
                Some(entry) => !is_blank(f@) && is_trim_of(f@, entry.0@) && entry.1@ == normalized_path(entry.0@),
            },
        },
{
    match file {
        None => None,
        Some(f) => if source_is_blank(f) {
            None
        } else {
            let trimmed = trim(f);
            let relative = normalize_relative_path(trimmed);
            Some((trimmed, relative))
        },
    }
}

/// A motion group as selection sees it: its name and how many motion files it lists.
pub struct MotionGroupEntry {
    pub name: String,
    pub motions: usize,
}

/// Why no motion could be selected.
#[derive(Debug, Clone, Copy, PartialEq, Eq, Structural)]
pub enum MotionSelectionError {
    /// No group has the requested name.
    GroupNotFound,
    /// No group lists any motion file.
    NoMotionFiles,
    /// The requested group lists no motion file.
    GroupEmpty,
}

/// Position of the first of the first `n` groups with this name.
pub open spec fn first_group_named(groups: Seq<MotionGroupEntry>, name: Seq<char>, n: nat) -> Option<int>
    decreases n,
{
    if n == 0 {
        None
    } else {
        match first_group_named(groups, name, (n - 1) as nat) {
            Some(i) => Some(i),
            None => if groups[n - 1].name@ == name {
                Some(n - 1)
            } else {
                None
            },
        }
    }
}

/// Position of the first of the first `n` groups that lists a motion.
pub open spec fn first_group_with_motions(groups: Seq<MotionGroupEntry>, n: nat) -> Option<int>
    decreases n,
{
    if n == 0 {
        None
    } else {
        match first_group_with_motions(groups, (n - 1) as nat) {
            Some(i) => Some(i),
            None => if groups[n - 1].motions > 0 {
                Some(n - 1)
            } else {
                None
            },
        }
    }
}

/// The group whose first motion a run plays: the named group, or without a name the
/// first group that lists a motion.
pub fn select_motion_group(groups: &[MotionGroupEntry], motion_group: Option<&str>) -> (r: Result<
    usize,
    MotionSelectionError,
>)
    ensures
        match motion_group {
            Some(name) => match first_group_named(groups@, name@, groups@.len()) {
                None => r matches Err(e) && e == MotionSelectionError::GroupNotFound,
                Some(i) => if groups@[i].motions == 0 {
                    r matches Err(e) && e == MotionSelectionError::GroupEmpty
                } else {
                    r matches Ok(k) && k == i
                },
            },
            None => match first_group_with_motions(groups@, groups@.len()) {
                None => r matches Err(e) && e == MotionSelectionError::NoMotionFiles,
                Some(i) => r matches Ok(k) && k == i,
            },
        },
{
    let mut i: usize = 0;
    match motion_group {
        Some(name) => {
            while i < groups.len()
                invariant
                    i <= groups@.len(),
                    motion_group == Some(name),
                    first_group_named(groups@, name@, i as nat) is None,
                decreases groups@.len() - i,
            {
                if str_equal(groups[i].name.as_str(), name) {
                    assert(first_group_named(groups@, name@, (i + 1) as nat) == Some(i as int));
                    proof {
                        lemma_first_group_named_stays(groups@, name@, (i + 1) as nat, groups@.len());
                    }
                    if groups[i].motions == 0 {
                        return Err(MotionSelectionError::GroupEmpty);
                    }
                    return Ok(i);
                }
                i = i + 1;
            }
            Err(MotionSelectionError::GroupNotFound)
        },
        None => {
            while i < groups.len()
                invariant
                    i <= groups@.len(),
                    motion_group is None,
                    first_group_with_motions(groups@, i as nat) is None,
                decreases groups@.len() - i,
            {
                if groups[i].motions > 0 {
                    assert(first_group_with_motions(groups@, (i + 1) as nat) == Some(i as int));
                    proof {
                        lemma_first_group_with_motions_stays(groups@, (i + 1) as nat, groups@.len());
                    }
                    return Ok(i);
                }
                i = i + 1;
            }
            Err(MotionSelectionError::NoMotionFiles)
        },
    }
}

proof fn lemma_first_group_named_stays(groups: Seq<MotionGroupEntry>, name: Seq<char>, a: nat, b: nat)
    requires
        a <= b,
        first_group_named(groups, name, a) is Some,
    ensures
        first_group_named(groups, name, b) == first_group_named(groups, name, a),
    decreases b,
{
    if a < b {
        lemma_first_group_named_stays(groups, name, a, (b - 1) as nat);
    }
}

proof fn lemma_first_group_with_motions_stays(groups: Seq<MotionGroupEntry>, a: nat, b: nat)
    requires
        a <= b,
        first_group_with_motions(groups, a) is Some,
    ensures
        first_group_with_motions(groups, b) == first_group_with_motions(groups, a),
    decreases b,
{
    if a < b {
        lemma_first_group_with_motions_stays(groups, a, (b - 1) as nat);
    }
}

} // verus!
