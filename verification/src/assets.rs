use crate::runtime::{declared_moc, motion_file_reference};
use crate::text::{
    holds_text, is_blank, is_permutation_of_range, is_trim_of, is_white_space, normalized_path,
    normalize_relative_path, sorted_name_order, sorted_unique_texts, str_equal, strictly_sorted,
    text_less, trim_bounds,
};
use vstd::prelude::*;

verus! {

/// A parsed JSON document: numbers are kept as their text, objects as their fields in
/// the order the parser lists them.
pub enum JsonTree {
    Null,
    Bool(bool),
    Number(String),
    Text(String),
    Array(Vec<JsonTree>),
    Object(Vec<(String, JsonTree)>),
}

#[verifier::external_type_specification]
#[verifier::external_body]
pub struct ExJsonValue(serde_json::Value);

/// The document that `serde_json` parses from this text, if it is JSON.
pub uninterp spec fn json_of(raw: Seq<char>) -> Option<JsonTree>;

/// `serde_json::from_str` into a `serde_json::Value`, converted into a `JsonTree`; the
/// parse is a function of the text alone, which `json_of` names.
#[verifier::external_body]
pub(crate) fn parse_json(raw: &str) -> (r: Option<JsonTree>)
    ensures
        r == json_of(raw@),
{
    match serde_json::from_str::<serde_json::Value>(raw) {
        Ok(value) => Some(json_tree(&value)),
        Err(_) => None,
    }
}

/// Converts a `serde_json::Value` into a `JsonTree`, one variant for each variant;
/// `parse_json` states what the conversion of a parse gives.
#[verifier::external_body]
fn json_tree(value: &serde_json::Value) -> JsonTree {
    match value {
        serde_json::Value::Null => JsonTree::Null,
        serde_json::Value::Bool(b) => JsonTree::Bool(*b),
        serde_json::Value::Number(n) => JsonTree::Number(n.to_string()),
        serde_json::Value::String(s) => JsonTree::Text(s.clone()),
        serde_json::Value::Array(items) => JsonTree::Array(items.iter().map(json_tree).collect()),
        serde_json::Value::Object(fields) => JsonTree::Object(
            fields.iter().map(|(key, item)| (key.clone(), json_tree(item))).collect(),
        ),
    }
}

/// The value of the first of the first `n` fields named `key`.
pub open spec fn field_at(fields: Seq<(String, JsonTree)>, key: Seq<char>, n: nat) -> Option<JsonTree>
    decreases n,
{
    if n == 0 {
        None
    } else {
        match field_at(fields, key, (n - 1) as nat) {
            Some(v) => Some(v),
            None => if fields[n - 1].0@ == key {
                Some(fields[n - 1].1)
            } else {
                None
            },
        }
    }
}

/// The value of field `key` of an object; nothing for any other value.
pub open spec fn field(t: Option<JsonTree>, key: Seq<char>) -> Option<JsonTree> {
    match t {
        Some(JsonTree::Object(fields)) => field_at(fields@, key, fields@.len()),
        _ => None,
    }
}

/// The text of a string value.
pub open spec fn text_value(t: Option<JsonTree>) -> Option<Seq<char>> {
    match t {
        Some(JsonTree::Text(s)) => Some(s@),
        _ => None,
    }
}

/// The text of a number value.
pub open spec fn number_value(t: Option<JsonTree>) -> Option<Seq<char>> {
    match t {
        Some(JsonTree::Number(s)) => Some(s@),
        _ => None,
    }
}

pub open spec fn some_ref(t: Option<&JsonTree>) -> Option<JsonTree> {
    match t {
        Some(v) => Some(*v),
        None => None,
    }
}

/// The value of field `key` of an object; nothing for any other value.
pub fn field_of<'a>(t: Option<&'a JsonTree>, key: &str) -> (r: Option<&'a JsonTree>)
    ensures
        some_ref(r) == field(some_ref(t), key@),
{
    match t {
        Some(JsonTree::Object(fields)) => {
            let mut i: usize = 0;
            while i < fields.len()
                invariant
                    i <= fields@.len(),
                    some_ref(t) == Some(JsonTree::Object(*fields)),
                    field_at(fields@, key@, i as nat) is None,
                decreases fields@.len() - i,
            {
                if str_equal(fields[i].0.as_str(), key) {
                    proof {
                        assert(field_at(fields@, key@, (i + 1) as nat) == Some(fields@[i as int].1));
                        lemma_field_found(fields@, key@, (i + 1) as nat, fields@.len());
                    }
                    return Some(&fields[i].1);
                }
                i = i + 1;
            }
            None
        },
        _ => None,
    }
}

proof fn lemma_field_found(fields: Seq<(String, JsonTree)>, key: Seq<char>, a: nat, b: nat)
    requires
        a <= b,
        field_at(fields, key, a) is Some,
    ensures
        field_at(fields, key, b) == field_at(fields, key, a),
    decreases b,
{
    if a < b {
        lemma_field_found(fields, key, a, (b - 1) as nat);
    }
}

/// The text of a string value.
pub fn text_of<'a>(t: Option<&'a JsonTree>) -> (r: Option<&'a str>)
    ensures
        match r {
            Some(s) => text_value(some_ref(t)) == Some(s@),
            None => text_value(some_ref(t)) is None,
        },
{
    match t {
        Some(JsonTree::Text(s)) => Some(s.as_str()),
        _ => None,
    }
}

/// The text of a number value.
pub fn number_of(t: Option<&JsonTree>) -> (r: Option<String>)
    ensures
        match r {
            Some(s) => number_value(some_ref(t)) == Some(s@),
            None => number_value(some_ref(t)) is None,
        },
{
    match t {
        Some(JsonTree::Number(s)) => Some(s.clone()),
        _ => None,
    }
}

/// The text without its leading and trailing white space.
pub open spec fn trimmed(s: Seq<char>) -> Seq<char> {
    choose|t: Seq<char>| is_trim_of(s, t)
}

proof fn lemma_trim_unique(s: Seq<char>, t1: Seq<char>, t2: Seq<char>)
    requires
        is_trim_of(s, t1),
        is_trim_of(s, t2),
    ensures
        t1 == t2,
{
    let (a1, b1) = choose|a: int, b: int| trim_bounds(s, t1, a, b);
    let (a2, b2) = choose|a: int, b: int| trim_bounds(s, t2, a, b);
    assert(trim_bounds(s, t1, a1, b1));
    assert(trim_bounds(s, t2, a2, b2));
    if a1 < b1 && a2 < b2 {
        if a1 < a2 {
            assert(is_white_space(s[a1]));
        }
        if a2 < a1 {
            assert(is_white_space(s[a2]));
        }
        if b1 < b2 {
            assert(is_white_space(s[b2 - 1]));
        }
        if b2 < b1 {
            assert(is_white_space(s[b1 - 1]));
        }
        assert(t1 =~= t2);
    } else if a1 < b1 {
        if a1 < a2 {
            assert(is_white_space(s[a1]));
        } else {
            assert(is_white_space(s[a1]));
        }
    } else if a2 < b2 {
        if a2 < a1 {
            assert(is_white_space(s[a2]));
        } else {
            assert(is_white_space(s[a2]));
        }
    } else {
        assert(t1 =~= t2);
    }
}

/// A text's trim is the one `trimmed` gives.
proof fn lemma_trimmed(s: Seq<char>, t: Seq<char>)
    requires
        is_trim_of(s, t),
    ensures
        trimmed(s) == t,
{
    lemma_trim_unique(s, trimmed(s), t);
}

/// One motion file that a `model3.json` lists: the file as written but trimmed, its
/// path relative to the model with slashes, and the text of its fade times.
pub struct MotionFileRef {
    pub file: String,
    pub relative_path: String,
    pub fade_in: Option<String>,
    pub fade_out: Option<String>,
}

pub struct MotionFileView {
    pub file: Seq<char>,
    pub relative_path: Seq<char>,
    pub fade_in: Option<Seq<char>>,
    pub fade_out: Option<Seq<char>>,
}

pub open spec fn opt_text(o: Option<String>) -> Option<Seq<char>> {
    match o {
        Some(s) => Some(s@),
        None => None,
    }
}

impl View for MotionFileRef {
    type V = MotionFileView;

    open spec fn view(&self) -> MotionFileView {
        MotionFileView {
            file: self.file@,
            relative_path: self.relative_path@,
            fade_in: opt_text(self.fade_in),
            fade_out: opt_text(self.fade_out),
        }
    }
}

/// A motion group of a `model3.json` and its motion files, in the order listed.
pub struct MotionGroupRef {
    pub name: String,
    pub motions: Vec<MotionFileRef>,
}

pub struct MotionGroupView {
    pub name: Seq<char>,
    pub motions: Seq<MotionFileView>,
}

impl View for MotionGroupRef {
    type V = MotionGroupView;

    open spec fn view(&self) -> MotionGroupView {
        MotionGroupView { name: self.name@, motions: self.motions@.map_values(|m: MotionFileRef| m@) }
    }
}

/// The files a `model3.json` references: its moc, its textures and its motion groups.
pub struct ModelFileRefs {
    pub moc: String,
    pub textures: Vec<String>,
    pub motion_groups: Vec<MotionGroupRef>,
}

pub struct ModelFileRefsView {
    pub moc: Seq<char>,
    pub textures: Seq<Seq<char>>,
    pub motion_groups: Seq<MotionGroupView>,
}

impl View for ModelFileRefs {
    type V = ModelFileRefsView;

    open spec fn view(&self) -> ModelFileRefsView {
        ModelFileRefsView {
            moc: self.moc@,
            textures: self.textures@.map_values(|t: String| t@),
            motion_groups: self.motion_groups@.map_values(|g: MotionGroupRef| g@),
        }
    }
}

/// The `FileReferences` of a document.
pub open spec fn file_references(doc: JsonTree) -> Option<JsonTree> {
    field(Some(doc), "FileReferences"@)
}

/// The moc a document declares, if it declares one that is not blank.
pub open spec fn declared_moc_of(doc: JsonTree) -> Option<Seq<char>> {
    match text_value(field(file_references(doc), "Moc"@)) {
        Some(m) => if is_blank(m) {
            None
        } else {
            Some(m)
        },
        None => None,
    }
}

/// The string items among the first `n` items, in order.
pub open spec fn text_items(items: Seq<JsonTree>, n: nat) -> Seq<Seq<char>>
    decreases n,
{
    if n == 0 {
        Seq::empty()
    } else {
        let earlier = text_items(items, (n - 1) as nat);
        match items[n - 1] {
            JsonTree::Text(s) => earlier.push(s@),
            _ => earlier,
        }
    }
}

/// The textures a document lists: the string items of `FileReferences.Textures`.
pub open spec fn textures_of(doc: JsonTree) -> Seq<Seq<char>> {
    match field(file_references(doc), "Textures"@) {
        Some(JsonTree::Array(items)) => text_items(items@, items@.len()),
        _ => Seq::empty(),
    }
}

/// The motion file a motion entry names: its `File`, when that is a string that is
/// not blank, trimmed, with its fade times when they are numbers.
pub open spec fn motion_ref_of(entry: JsonTree) -> Option<MotionFileView> {
    match text_value(field(Some(entry), "File"@)) {
        Some(f) => if is_blank(f) {
            None
        } else {
            Some(
                MotionFileView {
                    file: trimmed(f),
                    relative_path: normalized_path(trimmed(f)),
                    fade_in: number_value(field(Some(entry), "FadeInTime"@)),
                    fade_out: number_value(field(Some(entry), "FadeOutTime"@)),
                },
            )
        },
        None => None,
    }
}

/// The motion files named among the first `n` entries, in order.
pub open spec fn motion_refs_of(entries: Seq<JsonTree>, n: nat) -> Seq<MotionFileView>
    decreases n,
{
    if n == 0 {
        Seq::empty()
    } else {
        let earlier = motion_refs_of(entries, (n - 1) as nat);
        match motion_ref_of(entries[n - 1]) {
            Some(m) => earlier.push(m),
            None => earlier,
        }
    }
}

/// The motion groups among the first `n` fields of `Motions`: each field whose value
/// is an array, in the order of the fields.
pub open spec fn groups_of(fields: Seq<(String, JsonTree)>, n: nat) -> Seq<MotionGroupView>
    decreases n,
{
    if n == 0 {
        Seq::empty()
    } else {
        let earlier = groups_of(fields, (n - 1) as nat);
        match fields[n - 1].1 {
            JsonTree::Array(entries) => earlier.push(
                MotionGroupView { name: fields[n - 1].0@, motions: motion_refs_of(entries@, entries@.len()) },
            ),
            _ => earlier,
        }
    }
}

/// The motion groups of a document, in the order of its `FileReferences.Motions`.
pub open spec fn motion_groups_of(doc: JsonTree) -> Seq<MotionGroupView> {
    match field(file_references(doc), "Motions"@) {
        Some(JsonTree::Object(fields)) => groups_of(fields@, fields@.len()),
        _ => Seq::empty(),
    }
}

/// `out` is `groups` sorted by name, groups of equal names in their former order.
pub open spec fn sorted_by_name(out: Seq<MotionGroupView>, groups: Seq<MotionGroupView>) -> bool {
    exists|order: Seq<usize>|
        {
            &&& #[trigger] is_permutation_of_range(order, groups.len())
            &&& out.len() == groups.len()
            &&& forall|k: int| 0 <= k < out.len() ==> #[trigger] out[k] == groups[order[k] as int]
            &&& forall|k: int, l: int| 0 <= k < l < out.len() ==> !text_less(out[l].name, out[k].name)
            &&& forall|k: int, l: int|
                0 <= k < l < out.len() && out[k].name == out[l].name ==> order[k] < order[l]
        }
}

/// The texts of the string items of an array field, in order.
fn text_items_of(items: &Vec<JsonTree>) -> (r: Vec<String>)
    ensures
        r@.map_values(|t: String| t@) == text_items(items@, items@.len()),
{
    let mut out: Vec<String> = Vec::new();
    let mut i: usize = 0;
    while i < items.len()
        invariant
            i <= items@.len(),
            out@.map_values(|t: String| t@) == text_items(items@, i as nat),
        decreases items@.len() - i,
    {
        let ghost before = out@;
        match &items[i] {
            JsonTree::Text(t) => {
                out.push(t.clone());
                assert(out@.map_values(|t: String| t@) =~= before.map_values(|t: String| t@).push(t@));
            },
            _ => {},
        }
        i = i + 1;
    }
    out
}

/// The motion file that a motion entry names.
fn motion_ref(entry: &JsonTree) -> (r: Option<MotionFileRef>)
    ensures
        match r {
            Some(m) => motion_ref_of(*entry) == Some(m@),
            None => motion_ref_of(*entry) is None,
        },
{
    let file = text_of(field_of(Some(entry), "File"));
    match motion_file_reference(file) {
        None => None,
        Some((trimmed_file, relative_path)) => {
            let f = file.unwrap();
            proof {
                lemma_trimmed(f@, trimmed_file@);
            }
            let fade_in = number_of(field_of(Some(entry), "FadeInTime"));
            let fade_out = number_of(field_of(Some(entry), "FadeOutTime"));
            Some(MotionFileRef { file: trimmed_file.to_owned(), relative_path, fade_in, fade_out })
        },
    }
}

/// The motion files that the entries of a motion group name, in order.
fn motion_refs(entries: &Vec<JsonTree>) -> (r: Vec<MotionFileRef>)
    ensures
        r@.map_values(|m: MotionFileRef| m@) == motion_refs_of(entries@, entries@.len()),
{
    let mut out: Vec<MotionFileRef> = Vec::new();
    let mut i: usize = 0;
    while i < entries.len()
        invariant
            i <= entries@.len(),
            out@.map_values(|m: MotionFileRef| m@) == motion_refs_of(entries@, i as nat),
        decreases entries@.len() - i,
    {
        let ghost before = out@;
        match motion_ref(&entries[i]) {
            Some(m) => {
                let ghost mv = m@;
                out.push(m);
                assert(out@.map_values(|m: MotionFileRef| m@) =~= before.map_values(|m: MotionFileRef| m@).push(mv));
            },
            None => {},
        }
        i = i + 1;
    }
    out
}

/// The motion group of a `Motions` field whose value is an array.
pub open spec fn group_view_of(f: (String, JsonTree)) -> MotionGroupView {
    MotionGroupView {
        name: f.0@,
        motions: match f.1 {
            JsonTree::Array(entries) => motion_refs_of(entries@, entries@.len()),
            _ => Seq::empty(),
        },
    }
}

/// The motion groups of the `Motions` fields, sorted by name.
fn motion_group_refs(fields: &Vec<(String, JsonTree)>) -> (r: Vec<MotionGroupRef>)
    ensures
        sorted_by_name(r@.map_values(|g: MotionGroupRef| g@), groups_of(fields@, fields@.len())),
{
    let mut indices: Vec<usize> = Vec::new();
    let mut names: Vec<String> = Vec::new();
    let mut i: usize = 0;
    while i < fields.len()
        invariant
            i <= fields@.len(),
            indices@.len() == groups_of(fields@, i as nat).len(),
            names@.len() == indices@.len(),
            forall|j: int| #![trigger indices@[j]]
                0 <= j < indices@.len() ==> {
                    &&& indices@[j] < i
                    &&& groups_of(fields@, i as nat)[j] == group_view_of(fields@[indices@[j] as int])
                    &&& names@[j]@ == fields@[indices@[j] as int].0@
                },
        decreases fields@.len() - i,
    {
        let ghost before = groups_of(fields@, i as nat);
        match &fields[i].1 {
            JsonTree::Array(_) => {
                indices.push(i);
                names.push(fields[i].0.clone());
                assert(groups_of(fields@, (i + 1) as nat) == before.push(group_view_of(fields@[i as int])));
                assert forall|j: int| #![trigger indices@[j]] 0 <= j < indices@.len() implies {
                    &&& indices@[j] < i + 1
                    &&& groups_of(fields@, (i + 1) as nat)[j] == group_view_of(fields@[indices@[j] as int])
                    &&& names@[j]@ == fields@[indices@[j] as int].0@
                } by {
                    if j < before.len() {
                        assert(groups_of(fields@, (i + 1) as nat)[j] == before[j]);
                    }
                }
            },
            _ => {
                assert(groups_of(fields@, (i + 1) as nat) == before);
            },
        }
        i = i + 1;
    }
    let ghost groups = groups_of(fields@, fields@.len());
    let order = sorted_name_order(names.as_slice());
    let mut out: Vec<MotionGroupRef> = Vec::new();
    let mut k: usize = 0;
    while k < order.len()
        invariant
            k <= order@.len(),
            groups == groups_of(fields@, fields@.len()),
            indices@.len() == groups.len(),
            names@.len() == indices@.len(),
            is_permutation_of_range(order@, names@.len()),
            forall|j: int| #![trigger indices@[j]]
                0 <= j < indices@.len() ==> {
                    &&& indices@[j] < fields@.len()
                    &&& groups[j] == group_view_of(fields@[indices@[j] as int])
                    &&& names@[j]@ == fields@[indices@[j] as int].0@
                },
            out@.len() == k,
            forall|t: int| 0 <= t < k ==> #[trigger] out@[t]@ == groups[order@[t] as int],
        decreases order@.len() - k,
    {
        let g = order[k];
        let f = indices[g];
        assert(groups[g as int] == group_view_of(fields@[f as int]));
        let motions = match &fields[f].1 {
            JsonTree::Array(entries) => motion_refs(entries),
            _ => Vec::new(),
        };
        let group = MotionGroupRef { name: fields[f].0.clone(), motions };
        assert(group@.motions =~= group_view_of(fields@[f as int]).motions);
        out.push(group);
        k = k + 1;
    }
    proof {
        let view = out@.map_values(|g: MotionGroupRef| g@);
        assert forall|t: int| 0 <= t < view.len() implies #[trigger] view[t] == groups[order@[t] as int] by {
            assert(view[t] == out@[t]@);
        }
        assert forall|t: int| 0 <= t < view.len() implies view[t].name == names@[order@[t] as int]@ by {
            assert(view[t] == out@[t]@);
            assert(groups[order@[t] as int] == group_view_of(fields@[indices@[order@[t] as int] as int]));
        }
        assert(is_permutation_of_range(order@, groups.len()));
    }
    out
}

/// `r` is what a document's file references are: the moc it declares, the textures it
/// lists and its motion groups sorted by name; refused when it declares no moc.
pub open spec fn refs_of_doc(doc: JsonTree, r: Result<ModelFileRefs, String>) -> bool {
    match r {
        Ok(refs) => {
            &&& declared_moc_of(doc) == Some(refs@.moc)
            &&& refs@.textures == textures_of(doc)
            &&& sorted_by_name(refs@.motion_groups, motion_groups_of(doc))
        },
        Err(e) => declared_moc_of(doc) is None && e@ == "live2d_moc_not_declared"@,
    }
}

/// The files a parsed `model3.json` references.
pub fn model_file_refs(doc: &JsonTree) -> (r: Result<ModelFileRefs, String>)
    ensures
        refs_of_doc(*doc, r),
{
    let file_refs = field_of(Some(doc), "FileReferences");
    let moc = match declared_moc(text_of(field_of(file_refs, "Moc"))) {
        Ok(m) => m.to_owned(),
        Err(e) => return Err(e),
    };
    let textures = match field_of(file_refs, "Textures") {
        Some(JsonTree::Array(items)) => text_items_of(items),
        _ => Vec::new(),
    };
    let motion_groups = match field_of(file_refs, "Motions") {
        Some(JsonTree::Object(fields)) => motion_group_refs(fields),
        _ => {
            let none: Vec<MotionGroupRef> = Vec::new();
            proof {
                let order: Seq<usize> = Seq::empty();
                assert(is_permutation_of_range(order, 0));
                assert(none@.map_values(|g: MotionGroupRef| g@) =~= Seq::<MotionGroupView>::empty());
            }
            none
        },
    };
    let refs = ModelFileRefs { moc, textures, motion_groups };
    proof {
        assert(file_references(*doc) == some_ref(file_refs));
        assert(declared_moc_of(*doc) == Some(refs@.moc));
        assert(refs@.textures =~= textures_of(*doc));
        assert(sorted_by_name(refs@.motion_groups, motion_groups_of(*doc)));
    }
    Ok(refs)
}

/// The files a `model3.json` text references; text that is not JSON is refused.
pub fn parse_model3(raw: &str) -> (r: Result<ModelFileRefs, String>)
    ensures
        match json_of(raw@) {
            Some(doc) => refs_of_doc(doc, r),
            None => r matches Err(e) && e@ == "invalid_model3_json"@,
        },
{
    match parse_json(raw) {
        Some(doc) => model_file_refs(&doc),
        None => Err("invalid_model3_json".to_owned()),
    }
}

/// The motion files of the first `n` groups, group by group.
pub open spec fn motion_files_of(groups: Seq<MotionGroupView>, n: nat) -> Seq<Seq<char>>
    decreases n,
{
    if n == 0 {
        Seq::empty()
    } else {
        motion_files_of(groups, (n - 1) as nat) + groups[n - 1].motions.map_values(
            |m: MotionFileView| m.file,
        )
    }
}

/// Every file the references name, as written: the moc, the textures in order, then the
/// motion files group by group.
pub open spec fn reference_list(v: ModelFileRefsView) -> Seq<Seq<char>> {
    seq![v.moc] + v.textures + motion_files_of(v.motion_groups, v.motion_groups.len())
}

/// Every file the references name, as written, in the order of `reference_list`.
pub fn referenced_files(refs: &ModelFileRefs) -> (r: Vec<String>)
    ensures
        r@.map_values(|t: String| t@) == reference_list(refs@),
{
    let mut out: Vec<String> = Vec::new();
    out.push(refs.moc.clone());
    let mut t: usize = 0;
    while t < refs.textures.len()
        invariant
            t <= refs.textures@.len(),
            out@.map_values(|x: String| x@) == seq![refs@.moc] + refs@.textures.take(t as int),
        decreases refs.textures@.len() - t,
    {
        let ghost before = out@;
        out.push(refs.textures[t].clone());
        assert(out@.map_values(|x: String| x@) =~= before.map_values(|x: String| x@).push(refs.textures@[t as int]@));
        assert(refs@.textures.take(t + 1) =~= refs@.textures.take(t as int).push(refs.textures@[t as int]@));
        assert(out@.map_values(|x: String| x@) =~= seq![refs@.moc] + refs@.textures.take(t + 1));
        t = t + 1;
    }
    assert(refs@.textures.take(t as int) =~= refs@.textures);
    let ghost head = seq![refs@.moc] + refs@.textures;
    let mut g: usize = 0;
    while g < refs.motion_groups.len()
        invariant
            g <= refs.motion_groups@.len(),
            head == seq![refs@.moc] + refs@.textures,
            out@.map_values(|x: String| x@) == head + motion_files_of(refs@.motion_groups, g as nat),
        decreases refs.motion_groups@.len() - g,
    {
        let group = &refs.motion_groups[g];
        assert(refs@.motion_groups[g as int] == group@);
        let ghost start = out@.map_values(|x: String| x@);
        let mut m: usize = 0;
        while m < group.motions.len()
            invariant
                m <= group.motions@.len(),
                out@.map_values(|x: String| x@) == start + group@.motions.take(m as int).map_values(
                    |v: MotionFileView| v.file,
                ),
            decreases group.motions@.len() - m,
        {
            let ghost before = out@;
            out.push(group.motions[m].file.clone());
            assert(out@.map_values(|x: String| x@) =~= before.map_values(|x: String| x@).push(group.motions@[m as int].file@));
            assert(group@.motions[m as int] == group.motions@[m as int]@);
            assert(group@.motions.take(m + 1).map_values(|v: MotionFileView| v.file) =~= group@.motions.take(
                m as int,
            ).map_values(|v: MotionFileView| v.file).push(group.motions@[m as int].file@));
            assert(out@.map_values(|x: String| x@) =~= start + group@.motions.take(m + 1).map_values(
                |v: MotionFileView| v.file,
            ));
            m = m + 1;
        }
        assert(group@.motions.take(m as int) =~= group@.motions);
        assert(out@.map_values(|x: String| x@) =~= head + motion_files_of(refs@.motion_groups, (g + 1) as nat));
        g = g + 1;
    }
    out
}

/// Whether a referenced file counts as missing under `x`: a file the references name,
/// whose presence flag is false, reads `x` once its backslashes are slashes.
pub open spec fn is_missing(files: Seq<Seq<char>>, present: Seq<bool>, x: Seq<char>) -> bool {
    exists|i: int|
        0 <= i < files.len() && i < present.len() && !present[i] && #[trigger] normalized_path(files[i]) == x
}

/// The referenced files that are missing, with slashes, sorted and each once;
/// `present[i]` says whether the `i`-th file of `referenced_files` exists, and a file
/// without a flag counts as present.
pub fn missing_model_files(refs: &ModelFileRefs, present: &[bool]) -> (r: Vec<String>)
    ensures
        strictly_sorted(r@),
        forall|x: Seq<char>| #[trigger] holds_text(r@, x) <==> is_missing(reference_list(refs@), present@, x),
{
    let files = referenced_files(refs);
    let ghost list = reference_list(refs@);
    let mut missing: Vec<String> = Vec::new();
    let mut i: usize = 0;
    while i < files.len()
        invariant
            i <= files@.len(),
            files@.map_values(|t: String| t@) == list,
            forall|x: Seq<char>| #[trigger] holds_text(missing@, x) <==> exists|j: int|
                0 <= j < i && j < present@.len() && !present@[j] && #[trigger] normalized_path(list[j]) == x,
        decreases files@.len() - i,
    {
        if i < present.len() && !present[i] {
            let ghost before = missing@;
            let name = normalize_relative_path(files[i].as_str());
            assert(list[i as int] == files@[i as int]@);
            missing.push(name);
            assert forall|x: Seq<char>| #[trigger] holds_text(missing@, x) <==> exists|j: int|
                0 <= j < i + 1 && j < present@.len() && !present@[j] && #[trigger] normalized_path(list[j]) == x by {
                if holds_text(missing@, x) {
                    let k = choose|k: int| 0 <= k < missing@.len() && #[trigger] missing@[k]@ == x;
                    if k < before.len() {
                        assert(before[k]@ == x);
                        assert(holds_text(before, x));
                    }
                }
                if exists|j: int| 0 <= j < i + 1 && j < present@.len() && !present@[j] && #[trigger] normalized_path(list[j]) == x {
                    let j = choose|j: int| 0 <= j < i + 1 && j < present@.len() && !present@[j] && #[trigger] normalized_path(list[j]) == x;
                    if j < i {
                        assert(holds_text(before, x));
                        let k = choose|k: int| 0 <= k < before.len() && #[trigger] before[k]@ == x;
                        assert(missing@[k] == before[k]);
                    } else {
                        assert(missing@[before.len() as int]@ == x);
                    }
                }
            }
        } else {
            assert forall|x: Seq<char>| #[trigger] holds_text(missing@, x) <==> exists|j: int|
                0 <= j < i + 1 && j < present@.len() && !present@[j] && #[trigger] normalized_path(list[j]) == x by {
                if exists|j: int| 0 <= j < i + 1 && j < present@.len() && !present@[j] && #[trigger] normalized_path(list[j]) == x {
                    let j = choose|j: int| 0 <= j < i + 1 && j < present@.len() && !present@[j] && #[trigger] normalized_path(list[j]) == x;
                    assert(j < i);
                }
            }
        }
        i = i + 1;
    }
    sorted_unique_texts(missing)
}

/// The path that `std::path::Path::join` makes of `root` and `path`, as text.
pub uninterp spec fn path_join(root: Seq<char>, path: Seq<char>) -> Seq<char>;

/// `std::path::Path::join`: `path` after `root`, with the separator of the platform the
/// library is built for between them where needed, or `path` alone when it is absolute.
/// The contract names the result as a function of the two texts; what the function is
/// (the separator, what counts as absolute) is left to std.
#[verifier::external_body]
fn join_path(root: &str, path: &str) -> (r: String)
    ensures
        r@ == path_join(root@, path@),
{
    std::path::Path::new(root).join(path).to_string_lossy().into_owned()
}

/// Resolves asset paths against a directory.
#[derive(Debug, Clone)]
pub struct FsAssetResolver {
    root: String,
}

impl View for FsAssetResolver {
    type V = Seq<char>;

    /// The directory that paths are resolved against.
    closed spec fn view(&self) -> Seq<char> {
        self.root@
    }
}

impl FsAssetResolver {
    pub fn new(root: &str) -> (r: Self)
        ensures
            r@ == root@,
    {
        FsAssetResolver { root: root.to_owned() }
    }

    pub fn root(&self) -> (r: &str)
        ensures
            r@ == self@,
    {
        self.root.as_str()
    }

    /// The path of an asset: `path` joined to the root.
    pub fn resolve(&self, path: &str) -> (r: String)
        ensures
            r@ == path_join(self@, path@),
    {
        join_path(self.root.as_str(), path)
    }
}

} // verus!
