//! Inspection of VRM avatar files: the glTF JSON is taken from a binary
//! GLB container (or the bytes are the JSON itself), parsed, and summed
//! up: asset version and generator, how many nodes, meshes, skins and
//! materials, the extensions, and the VRM extension's version, title,
//! author, human bones and expression groups.
use vstd::prelude::*;
use serde_json::Value;

verus! {

/// "glTF" read as a little-endian word: the GLB magic number.
pub const GLB_MAGIC: u32 = 0x4654_6c67;

/// "JSON" read as a little-endian word: the type of the JSON chunk.
pub const JSON_CHUNK: u32 = 0x4e4f_534a;

#[derive(Clone, Copy, PartialEq, Eq, Structural, Debug)]
pub enum VrmSourceFormat {
    GltfJson,
    Glb,
}

/// Why a GLB container gives no JSON.
#[derive(Clone, Copy, PartialEq, Eq, Structural, Debug)]
pub enum GltfError {
    /// The header's total length is more than the data.
    LengthExceedsData,
    /// A chunk runs past the header's total length.
    ChunkExceedsData,
    /// The chunks end without a JSON chunk.
    NoJsonChunk,
}

/// The little-endian word at `i`.
pub open spec fn le32(b: Seq<u8>, i: int) -> int {
    b[i] + b[i + 1] * 256 + b[i + 2] * 65536 + b[i + 3] * 16777216
}

/// `v` rounded up to a multiple of four.
pub open spec fn align4(v: int) -> int {
    ((v + 3) / 4) * 4
}

/// The chunks of a GLB container from `offset` on, each an eight-byte
/// header (length, type) and its data padded to four bytes: where the
/// first JSON chunk's data starts and ends.
pub open spec fn find_json_chunk(b: Seq<u8>, total: int, offset: int) -> Result<(int, int), GltfError>
    decreases total + 12 - offset,
{
    if offset < 0 || offset + 8 > total {
        Err(GltfError::NoJsonChunk)
    } else {
        let start = offset + 8;
        let end = start + le32(b, offset);
        if end > total {
            Err(GltfError::ChunkExceedsData)
        } else if le32(b, offset + 4) == JSON_CHUNK {
            Ok((start, end))
        } else {
            proof {
                assert(end >= offset + 8);
                assert(align4(end) >= end && align4(end) <= end + 3) by (nonlinear_arith);
            }
            find_json_chunk(b, total, align4(end))
        }
    }
}

/// The bytes start with a GLB header.
pub open spec fn is_glb(b: Seq<u8>) -> bool {
    b.len() >= 12 && le32(b, 0) == GLB_MAGIC
}

/// The glTF JSON of a file: the first JSON chunk of a GLB container, or
/// the whole file when it is not one.
pub open spec fn gltf_json(b: Seq<u8>) -> Result<(VrmSourceFormat, Seq<u8>), GltfError> {
    if is_glb(b) {
        let total = le32(b, 8);
        if total > b.len() {
            Err(GltfError::LengthExceedsData)
        } else {
            match find_json_chunk(b, total, 12) {
                Ok((s, e)) => Ok((VrmSourceFormat::Glb, b.subrange(s, e))),
                Err(x) => Err(x),
            }
        }
    } else {
        Ok((VrmSourceFormat::GltfJson, b))
    }
}

fn read_le32(bytes: &[u8], i: usize) -> (r: u32)
    requires
        i + 4 <= bytes@.len(),
    ensures
        r == le32(bytes@, i as int),
{
    bytes[i] as u32 + (bytes[i + 1] as u32) * 256 + (bytes[i + 2] as u32) * 65536 + (bytes[i + 3] as u32) * 16777216
}

/// The glTF JSON of a file (see `gltf_json`).
pub fn extract_gltf_json(bytes: &[u8]) -> (r: Result<(VrmSourceFormat, Vec<u8>), GltfError>)
    requires
        bytes@.len() <= isize::MAX,
    ensures
        match r {
            Ok((f, j)) => gltf_json(bytes@) == Ok::<(VrmSourceFormat, Seq<u8>), GltfError>((f, j@)),
            Err(e) => gltf_json(bytes@) == Err::<(VrmSourceFormat, Seq<u8>), GltfError>(e),
        },
{
    if bytes.len() >= 12 && read_le32(bytes, 0) == GLB_MAGIC {
        let total = read_le32(bytes, 8) as usize;
        if total > bytes.len() {
            return Err(GltfError::LengthExceedsData);
        }
        let mut offset: usize = 12;
        while offset + 8 <= total
            invariant
                total <= bytes@.len() <= isize::MAX,
                total == le32(bytes@, 8),
                is_glb(bytes@),
                offset == 12 || offset <= total + 3,
                find_json_chunk(bytes@, total as int, offset as int) == find_json_chunk(bytes@, total as int, 12),
            decreases total + 12 - offset,
        {
            let chunk_len = read_le32(bytes, offset) as usize;
            let chunk_type = read_le32(bytes, offset + 4);
            let start = offset + 8;
            assert(chunk_len == le32(bytes@, offset as int));
            assert(chunk_type == le32(bytes@, offset + 4));
            if chunk_len > total - start {
                assert(find_json_chunk(bytes@, total as int, offset as int) == Err::<(int, int), GltfError>(
                    GltfError::ChunkExceedsData,
                ));
                return Err(GltfError::ChunkExceedsData);
            }
            let end = start + chunk_len;
            if chunk_type == JSON_CHUNK {
                assert(find_json_chunk(bytes@, total as int, offset as int) == Ok::<(int, int), GltfError>(
                    (start as int, end as int),
                ));
                let data = vstd::slice::slice_subrange(bytes, start, end);
                return Ok((VrmSourceFormat::Glb, vstd::slice::slice_to_vec(data)));
            }
            let next = (end + 3) / 4 * 4;
            assert(next == align4(end as int));
            assert(next >= end && next <= end + 3) by (nonlinear_arith)
                requires
                    next == ((end + 3) / 4) * 4,
            ;
            offset = next;
        }
        return Err(GltfError::NoJsonChunk);
    }
    Ok((VrmSourceFormat::GltfJson, vstd::slice::slice_to_vec(bytes)))
}

/// A parsed JSON value as the summary reads it: integers that fit a `u64`
/// are kept, other numbers only noted; an object's entries come in
/// ascending key order, each key once.
#[derive(Debug)]
pub enum JsonTree {
    Null,
    Bool(bool),
    Int(u64),
    OtherNumber,
    Str(String),
    Array(Vec<JsonTree>),
    Object(Vec<(String, JsonTree)>),
}

#[verifier::external_type_specification]
#[verifier::external_body]
pub struct ExJsonValue(Value);

/// What `serde_json` parses `bytes` to, as a tree; nothing when they are
/// not JSON.
pub uninterp spec fn json_parse(bytes: Seq<u8>) -> Option<JsonTree>;

/// The tree of a `serde_json::Value`, variant by variant.
#[verifier::external_body]
fn tree_of(v: &Value) -> (r: JsonTree) {
    match v {
        Value::Null => JsonTree::Null,
        Value::Bool(b) => JsonTree::Bool(*b),
        Value::Number(n) => match n.as_u64() {
            Some(u) => JsonTree::Int(u),
            None => JsonTree::OtherNumber,
        },
        Value::String(s) => JsonTree::Str(s.clone()),
        Value::Array(a) => JsonTree::Array(a.iter().map(tree_of).collect()),
        Value::Object(m) => JsonTree::Object(m.iter().map(|(k, x)| (k.clone(), tree_of(x))).collect()),
    }
}

/// Parses JSON text with `serde_json::from_slice` into a `Value` and
/// returns its tree (see `json_parse`): the result depends on the bytes
/// alone; nothing is returned for text that is not JSON.
#[verifier::external_body]
pub fn parse_json(bytes: &[u8]) -> (r: Option<JsonTree>)
    ensures
        r == json_parse(bytes@),
{
    match serde_json::from_slice::<Value>(bytes) {
        Ok(v) => Some(tree_of(&v)),
        Err(_) => None,
    }
}

/// The value under `key` among entries `i` on (the first with that key).
pub open spec fn entry_find(es: Seq<(String, JsonTree)>, key: Seq<char>, i: int) -> Option<JsonTree>
    decreases es.len() - i,
{
    if i < 0 || i >= es.len() {
        None
    } else if es[i].0@ == key {
        Some(es[i].1)
    } else {
        entry_find(es, key, i + 1)
    }
}

/// The value under `key` of an object; nothing for other values.
pub open spec fn jget(t: JsonTree, key: Seq<char>) -> Option<JsonTree> {
    match t {
        JsonTree::Object(es) => entry_find(es@, key, 0),
        _ => None,
    }
}

pub open spec fn oget(o: Option<JsonTree>, key: Seq<char>) -> Option<JsonTree> {
    match o {
        Some(t) => jget(t, key),
        None => None,
    }
}

pub open spec fn or_else(a: Option<JsonTree>, b: Option<JsonTree>) -> Option<JsonTree> {
    if a is Some {
        a
    } else {
        b
    }
}

/// The text of a string value.
pub open spec fn jstr(o: Option<JsonTree>) -> Option<Seq<char>> {
    match o {
        Some(JsonTree::Str(s)) => Some(s@),
        _ => None,
    }
}

/// An integer value that fits a `u32`.
pub open spec fn ju32(o: Option<JsonTree>) -> Option<u32> {
    match o {
        Some(JsonTree::Int(n)) => if n <= u32::MAX { Some(n as u32) } else { None },
        _ => None,
    }
}

/// How many items the array under `key` has (0 if it is no array).
pub open spec fn array_len_of(root: JsonTree, key: Seq<char>) -> usize {
    match jget(root, key) {
        Some(JsonTree::Array(v)) => v@.len() as usize,
        _ => 0,
    }
}

/// The string items, in order.
pub open spec fn strs_of(items: Seq<JsonTree>) -> Seq<Seq<char>>
    decreases items.len(),
{
    if items.len() == 0 {
        Seq::empty()
    } else {
        strs_of(items.drop_last()) + match items.last() {
            JsonTree::Str(s) => seq![s@],
            _ => Seq::empty(),
        }
    }
}

/// The string items of the array under `key`.
pub open spec fn string_array_of(root: JsonTree, key: Seq<char>) -> Seq<Seq<char>> {
    match jget(root, key) {
        Some(JsonTree::Array(v)) => strs_of(v@),
        _ => Seq::empty(),
    }
}

/// The first string item from `i` on.
pub open spec fn first_str(items: Seq<JsonTree>, i: int) -> Option<Seq<char>>
    decreases items.len() - i,
{
    if i < 0 || i >= items.len() {
        None
    } else {
        match items[i] {
            JsonTree::Str(s) => Some(s@),
            _ => first_str(items, i + 1),
        }
    }
}

/// An author: a string, or the first string of an array.
pub open spec fn author_of(o: Option<JsonTree>) -> Option<Seq<char>> {
    match o {
        Some(JsonTree::Str(s)) => Some(s@),
        Some(JsonTree::Array(v)) => first_str(v@, 0),
        _ => None,
    }
}

/// A bone listed in an array: its name (`bone`, else `name`) and node
/// (`node`, else `nodeIndex`).
pub open spec fn item_bone(item: JsonTree) -> Option<(Seq<char>, u32)> {
    match jstr(or_else(jget(item, "bone"@), jget(item, "name"@))) {
        Some(b) => match ju32(or_else(jget(item, "node"@), jget(item, "nodeIndex"@))) {
            Some(n) => Some((b, n)),
            None => None,
        },
        None => None,
    }
}

/// A bone keyed by its name in an object: its node from `node`, else from
/// `nodeIndex`, else the value itself when it is an integer.
pub open spec fn entry_bone(e: (String, JsonTree)) -> Option<(Seq<char>, u32)> {
    let item = e.1;
    let node = if ju32(jget(item, "node"@)) is Some {
        ju32(jget(item, "node"@))
    } else if ju32(jget(item, "nodeIndex"@)) is Some {
        ju32(jget(item, "nodeIndex"@))
    } else if item is Int {
        ju32(Some(item))
    } else {
        None
    };
    match node {
        Some(n) => Some((e.0@, n)),
        None => None,
    }
}

pub open spec fn bones_of_items(items: Seq<JsonTree>) -> Seq<(Seq<char>, u32)>
    decreases items.len(),
{
    if items.len() == 0 {
        Seq::empty()
    } else {
        bones_of_items(items.drop_last()) + match item_bone(items.last()) {
            Some(b) => seq![b],
            None => Seq::empty(),
        }
    }
}

pub open spec fn bones_of_entries(es: Seq<(String, JsonTree)>) -> Seq<(Seq<char>, u32)>
    decreases es.len(),
{
    if es.len() == 0 {
        Seq::empty()
    } else {
        bones_of_entries(es.drop_last()) + match entry_bone(es.last()) {
            Some(b) => seq![b],
            None => Seq::empty(),
        }
    }
}

/// The human bones, whether listed in an array or keyed in an object.
pub open spec fn bones_of(o: Option<JsonTree>) -> Seq<(Seq<char>, u32)> {
    match o {
        Some(JsonTree::Array(v)) => bones_of_items(v@),
        Some(JsonTree::Object(es)) => bones_of_entries(es@),
        _ => Seq::empty(),
    }
}

/// How many items an array, or entries an object, has.
pub open spec fn count_of(o: Option<JsonTree>) -> usize {
    match o {
        Some(JsonTree::Array(v)) => v@.len() as usize,
        Some(JsonTree::Object(es)) => es@.len() as usize,
        _ => 0,
    }
}

/// A human bone: its name and node.
pub struct VrmHumanBone {
    pub bone: String,
    pub node: u32,
}

/// The summary of a VRM file.
pub struct VrmInspection {
    pub source_format: VrmSourceFormat,
    pub asset_version: Option<String>,
    pub generator: Option<String>,
    pub node_count: usize,
    pub mesh_count: usize,
    pub skin_count: usize,
    pub material_count: usize,
    pub extensions_used: Vec<String>,
    pub extensions_required: Vec<String>,
    pub vrm_extension_name: Option<String>,
    pub vrm_version: Option<String>,
    pub vrm_title: Option<String>,
    pub vrm_author: Option<String>,
    pub human_bones: Vec<VrmHumanBone>,
    pub blendshape_group_count: usize,
}

/// The summary with its texts as character sequences.
pub struct VrmSummary {
    pub source_format: VrmSourceFormat,
    pub asset_version: Option<Seq<char>>,
    pub generator: Option<Seq<char>>,
    pub node_count: usize,
    pub mesh_count: usize,
    pub skin_count: usize,
    pub material_count: usize,
    pub extensions_used: Seq<Seq<char>>,
    pub extensions_required: Seq<Seq<char>>,
    pub vrm_extension_name: Option<Seq<char>>,
    pub vrm_version: Option<Seq<char>>,
    pub vrm_title: Option<Seq<char>>,
    pub vrm_author: Option<Seq<char>>,
    pub human_bones: Seq<(Seq<char>, u32)>,
    pub blendshape_group_count: usize,
}

pub open spec fn text_view(o: Option<String>) -> Option<Seq<char>> {
    match o {
        Some(s) => Some(s@),
        None => None,
    }
}

impl View for VrmInspection {
    type V = VrmSummary;

    open spec fn view(&self) -> VrmSummary {
        VrmSummary {
            source_format: self.source_format,
            asset_version: text_view(self.asset_version),
            generator: text_view(self.generator),
            node_count: self.node_count,
            mesh_count: self.mesh_count,
            skin_count: self.skin_count,
            material_count: self.material_count,
            extensions_used: self.extensions_used@.map_values(|s: String| s@),
            extensions_required: self.extensions_required@.map_values(|s: String| s@),
            vrm_extension_name: text_view(self.vrm_extension_name),
            vrm_version: text_view(self.vrm_version),
            vrm_title: text_view(self.vrm_title),
            vrm_author: text_view(self.vrm_author),
            human_bones: self.human_bones@.map_values(|b: VrmHumanBone| (b.bone@, b.node)),
            blendshape_group_count: self.blendshape_group_count,
        }
    }
}

/// The VRM extension: `extensions.VRM`, else `extensions.VRMC_vrm`.
pub open spec fn vrm_ext(root: JsonTree) -> Option<JsonTree> {
    let exts = jget(root, "extensions"@);
    or_else(oget(exts, "VRM"@), oget(exts, "VRMC_vrm"@))
}

/// The summary of a parsed glTF document.
pub open spec fn spec_inspect(format: VrmSourceFormat, root: JsonTree) -> VrmSummary {
    let asset = jget(root, "asset"@);
    let ext = vrm_ext(root);
    let meta = oget(ext, "meta"@);
    let humanoid = oget(ext, "humanoid"@);
    VrmSummary {
        source_format: format,
        asset_version: jstr(oget(asset, "version"@)),
        generator: jstr(oget(asset, "generator"@)),
        node_count: array_len_of(root, "nodes"@),
        mesh_count: array_len_of(root, "meshes"@),
        skin_count: array_len_of(root, "skins"@),
        material_count: array_len_of(root, "materials"@),
        extensions_used: string_array_of(root, "extensionsUsed"@),
        extensions_required: string_array_of(root, "extensionsRequired"@),
        vrm_extension_name: if ext is Some {
            if oget(jget(root, "extensions"@), "VRMC_vrm"@) is Some {
                Some("VRMC_vrm"@)
            } else {
                Some("VRM"@)
            }
        } else {
            None
        },
        vrm_version: jstr(or_else(oget(ext, "specVersion"@), oget(ext, "version"@))),
        vrm_title: jstr(oget(meta, "title"@)),
        vrm_author: author_of(or_else(oget(meta, "author"@), oget(meta, "authors"@))),
        human_bones: bones_of(or_else(oget(humanoid, "humanBones"@), oget(humanoid, "human_bones"@))),
        blendshape_group_count: count_of(
            or_else(
                or_else(oget(oget(ext, "blendShapeMaster"@), "blendShapeGroups"@), oget(ext, "expressions"@)),
                oget(ext, "blendshapeGroups"@),
            ),
        ),
    }
}


pub open spec fn dref(o: Option<&JsonTree>) -> Option<JsonTree> {
    match o {
        Some(t) => Some(*t),
        None => None,
    }
}

fn key_is(k: &String, key: &str) -> (r: bool)
    ensures
        r == (k@ == key@),
{
    k.as_str().to_owned() == key.to_owned()
}

/// The value under `key` of an object (see `jget`).
fn get<'a>(t: &'a JsonTree, key: &str) -> (r: Option<&'a JsonTree>)
    ensures
        dref(r) == jget(*t, key@),
{
    match t {
        JsonTree::Object(es) => {
            let mut i: usize = 0;
            while i < es.len()
                invariant
                    i <= es@.len(),
                    entry_find(es@, key@, i as int) == entry_find(es@, key@, 0),
                    jget(*t, key@) == entry_find(es@, key@, 0),
                decreases es@.len() - i,
            {
                let e = &es[i];
                if key_is(&e.0, key) {
                    assert(es@[i as int] == *e);
                    assert(entry_find(es@, key@, i as int) == Some(e.1));
                    return Some(&e.1);
                }
                i = i + 1;
            }
            None
        },
        _ => None,
    }
}

fn oget_ref<'a>(o: Option<&'a JsonTree>, key: &str) -> (r: Option<&'a JsonTree>)
    ensures
        dref(r) == oget(dref(o), key@),
{
    match o {
        Some(t) => get(t, key),
        None => None,
    }
}

fn or_else_ref<'a>(a: Option<&'a JsonTree>, b: Option<&'a JsonTree>) -> (r: Option<&'a JsonTree>)
    ensures
        dref(r) == or_else(dref(a), dref(b)),
{
    if a.is_some() {
        a
    } else {
        b
    }
}

fn text_of(o: Option<&JsonTree>) -> (r: Option<String>)
    ensures
        text_view(r) == jstr(dref(o)),
{
    match o {
        Some(JsonTree::Str(s)) => Some(s.clone()),
        _ => None,
    }
}

fn u32_of(o: Option<&JsonTree>) -> (r: Option<u32>)
    ensures
        r == ju32(dref(o)),
{
    match o {
        Some(JsonTree::Int(n)) => if *n <= 0xffff_ffff { Some(*n as u32) } else { None },
        _ => None,
    }
}

fn array_len(root: &JsonTree, key: &str) -> (r: usize)
    ensures
        r == array_len_of(*root, key@),
{
    match get(root, key) {
        Some(JsonTree::Array(v)) => v.len(),
        _ => 0,
    }
}

fn strings_in(items: &Vec<JsonTree>) -> (r: Vec<String>)
    ensures
        r@.map_values(|s: String| s@) == strs_of(items@),
{
    let mut out: Vec<String> = Vec::new();
    let mut i: usize = 0;
    while i < items.len()
        invariant
            i <= items@.len(),
            out@.map_values(|s: String| s@) == strs_of(items@.take(i as int)),
        decreases items@.len() - i,
    {
        proof {
            assert(items@.take(i + 1).drop_last() =~= items@.take(i as int));
        }
        let ghost before = out@;
        match &items[i] {
            JsonTree::Str(s) => {
                out.push(s.clone());
                proof {
                    assert(out@.map_values(|s: String| s@) =~= before.map_values(|s: String| s@) + seq![s@]);
                }
            },
            _ => {
                assert(out@.map_values(|s: String| s@) =~= before.map_values(|s: String| s@) + Seq::<Seq<char>>::empty());
            },
        }
        i = i + 1;
    }
    proof {
        assert(items@.take(items@.len() as int) =~= items@);
    }
    out
}

fn string_array(root: &JsonTree, key: &str) -> (r: Vec<String>)
    ensures
        r@.map_values(|s: String| s@) == string_array_of(*root, key@),
{
    match get(root, key) {
        Some(JsonTree::Array(v)) => strings_in(v),
        _ => {
            let out: Vec<String> = Vec::new();
            assert(out@.map_values(|s: String| s@) =~= Seq::<Seq<char>>::empty());
            out
        },
    }
}

fn author(o: Option<&JsonTree>) -> (r: Option<String>)
    ensures
        text_view(r) == author_of(dref(o)),
{
    match o {
        Some(JsonTree::Str(s)) => Some(s.clone()),
        Some(JsonTree::Array(v)) => {
            let mut i: usize = 0;
            while i < v.len()
                invariant
                    i <= v@.len(),
                    first_str(v@, i as int) == first_str(v@, 0),
                    author_of(dref(o)) == first_str(v@, 0),
                decreases v@.len() - i,
            {
                let it = &v[i];
                assert(v@[i as int] == *it);
                match it {
                    JsonTree::Str(s) => {
                        assert(first_str(v@, i as int) == Some(s@));
                        return Some(s.clone());
                    },
                    _ => {},
                }
                i = i + 1;
            }
            None
        },
        _ => None,
    }
}

fn bone_of_item(item: &JsonTree) -> (r: Option<VrmHumanBone>)
    ensures
        match r {
            Some(b) => item_bone(*item) == Some((b.bone@, b.node)),
            None => item_bone(*item) is None,
        },
{
    let bone = match text_of(or_else_ref(get(item, "bone"), get(item, "name"))) {
        Some(b) => b,
        None => {
            return None;
        },
    };
    let node = match u32_of(or_else_ref(get(item, "node"), get(item, "nodeIndex"))) {
        Some(n) => n,
        None => {
            return None;
        },
    };
    Some(VrmHumanBone { bone, node })
}

fn bone_of_entry(e: &(String, JsonTree)) -> (r: Option<VrmHumanBone>)
    ensures
        match r {
            Some(b) => entry_bone(*e) == Some((b.bone@, b.node)),
            None => entry_bone(*e) is None,
        },
{
    let item = &e.1;
    let node = if let Some(n) = u32_of(get(item, "node")) {
        Some(n)
    } else if let Some(n) = u32_of(get(item, "nodeIndex")) {
        Some(n)
    } else if let JsonTree::Int(_) = item {
        u32_of(Some(item))
    } else {
        None
    };
    match node {
        Some(n) => Some(VrmHumanBone { bone: e.0.clone(), node: n }),
        None => None,
    }
}

pub open spec fn bone_view(b: VrmHumanBone) -> (Seq<char>, u32) {
    (b.bone@, b.node)
}

fn bones(o: Option<&JsonTree>) -> (r: Vec<VrmHumanBone>)
    ensures
        r@.map_values(|b: VrmHumanBone| bone_view(b)) == bones_of(dref(o)),
{
    let mut out: Vec<VrmHumanBone> = Vec::new();
    match o {
        Some(JsonTree::Array(v)) => {
            let mut i: usize = 0;
            while i < v.len()
                invariant
                    i <= v@.len(),
                    out@.map_values(|b: VrmHumanBone| bone_view(b)) == bones_of_items(v@.take(i as int)),
                decreases v@.len() - i,
            {
                proof {
                    assert(v@.take(i + 1).drop_last() =~= v@.take(i as int));
                }
                let ghost before = out@;
                match bone_of_item(&v[i]) {
                    Some(b) => {
                        out.push(b);
                    },
                    None => {},
                }
                assert(out@.map_values(|b: VrmHumanBone| bone_view(b)) =~= bones_of_items(v@.take(i + 1)));
                i = i + 1;
            }
            proof {
                assert(v@.take(v@.len() as int) =~= v@);
            }
        },
        Some(JsonTree::Object(es)) => {
            let mut i: usize = 0;
            while i < es.len()
                invariant
                    i <= es@.len(),
                    out@.map_values(|b: VrmHumanBone| bone_view(b)) == bones_of_entries(es@.take(i as int)),
                decreases es@.len() - i,
            {
                proof {
                    assert(es@.take(i + 1).drop_last() =~= es@.take(i as int));
                }
                match bone_of_entry(&es[i]) {
                    Some(b) => {
                        out.push(b);
                    },
                    None => {},
                }
                assert(out@.map_values(|b: VrmHumanBone| bone_view(b)) =~= bones_of_entries(es@.take(i + 1)));
                i = i + 1;
            }
            proof {
                assert(es@.take(es@.len() as int) =~= es@);
            }
        },
        _ => {
            assert(out@.map_values(|b: VrmHumanBone| bone_view(b)) =~= Seq::<(Seq<char>, u32)>::empty());
        },
    }
    out
}

fn count(o: Option<&JsonTree>) -> (r: usize)
    ensures
        r == count_of(dref(o)),
{
    match o {
        Some(JsonTree::Array(v)) => v.len(),
        Some(JsonTree::Object(es)) => es.len(),
        _ => 0,
    }
}


/// Why a file gives no summary.
#[derive(Clone, Copy, PartialEq, Eq, Structural, Debug)]
pub enum InspectError {
    /// The GLB container is broken.
    Container(GltfError),
    /// The glTF JSON does not parse.
    Json,
}

impl VrmInspection {
    /// The summary of a parsed glTF document (see `spec_inspect`).
    pub fn from_tree(source_format: VrmSourceFormat, root: &JsonTree) -> (r: Self)
        ensures
            r@ == spec_inspect(source_format, *root),
    {
        let asset = get(root, "asset");
        let exts = get(root, "extensions");
        let ext = or_else_ref(oget_ref(exts, "VRM"), oget_ref(exts, "VRMC_vrm"));
        let meta = oget_ref(ext, "meta");
        let humanoid = oget_ref(ext, "humanoid");
        let vrm_extension_name = if ext.is_some() {
            if oget_ref(exts, "VRMC_vrm").is_some() {
                Some("VRMC_vrm".to_owned())
            } else {
                Some("VRM".to_owned())
            }
        } else {
            None
        };
        let groups = or_else_ref(
            or_else_ref(oget_ref(oget_ref(ext, "blendShapeMaster"), "blendShapeGroups"), oget_ref(ext, "expressions")),
            oget_ref(ext, "blendshapeGroups"),
        );
        let r = VrmInspection {
            source_format,
            asset_version: text_of(oget_ref(asset, "version")),
            generator: text_of(oget_ref(asset, "generator")),
            node_count: array_len(root, "nodes"),
            mesh_count: array_len(root, "meshes"),
            skin_count: array_len(root, "skins"),
            material_count: array_len(root, "materials"),
            extensions_used: string_array(root, "extensionsUsed"),
            extensions_required: string_array(root, "extensionsRequired"),
            vrm_extension_name,
            vrm_version: text_of(or_else_ref(oget_ref(ext, "specVersion"), oget_ref(ext, "version"))),
            vrm_title: text_of(oget_ref(meta, "title")),
            vrm_author: author(or_else_ref(oget_ref(meta, "author"), oget_ref(meta, "authors"))),
            human_bones: bones(or_else_ref(oget_ref(humanoid, "humanBones"), oget_ref(humanoid, "human_bones"))),
            blendshape_group_count: count(groups),
        };
        assert(r@.human_bones =~= spec_inspect(source_format, *root).human_bones);
        r
    }

    /// The summary of a VRM file: its glTF JSON (see `gltf_json`) parsed
    /// (see `json_parse`) and summed up (see `spec_inspect`).
    pub fn from_bytes(bytes: &[u8]) -> (r: Result<Self, InspectError>)
        requires
            bytes@.len() <= isize::MAX,
        ensures
            match gltf_json(bytes@) {
                Err(e) => r == Err::<Self, InspectError>(InspectError::Container(e)),
                Ok((f, j)) => match json_parse(j) {
                    None => r == Err::<Self, InspectError>(InspectError::Json),
                    Some(t) => r matches Ok(v) && v@ == spec_inspect(f, t),
                },
            },
    {
        let (format, json) = match extract_gltf_json(bytes) {
            Ok(p) => p,
            Err(e) => {
                return Err(InspectError::Container(e));
            },
        };
        match parse_json(json.as_slice()) {
            Some(root) => Ok(VrmInspection::from_tree(format, &root)),
            None => Err(InspectError::Json),
        }
    }
}

/// The counts of a summary are the lengths of the top-level arrays: the
/// node, mesh, skin and material counts are the numbers of items in the
/// arrays under "nodes", "meshes", "skins" and "materials", and 0 where the
/// key is missing or holds something else than an array.
pub proof fn lemma_counts_are_array_lengths(format: VrmSourceFormat, root: JsonTree)
    ensures
        ({
            let s = spec_inspect(format, root);
            &&& match jget(root, "nodes"@) {
                Some(JsonTree::Array(v)) => s.node_count == v@.len(),
                _ => s.node_count == 0,
            }
            &&& match jget(root, "meshes"@) {
                Some(JsonTree::Array(v)) => s.mesh_count == v@.len(),
                _ => s.mesh_count == 0,
            }
            &&& match jget(root, "skins"@) {
                Some(JsonTree::Array(v)) => s.skin_count == v@.len(),
                _ => s.skin_count == 0,
            }
            &&& match jget(root, "materials"@) {
                Some(JsonTree::Array(v)) => s.material_count == v@.len(),
                _ => s.material_count == 0,
            }
        }),
{
    if let Some(JsonTree::Array(v)) = jget(root, "nodes"@) {
        assert(v.len() == v@.len());
    }
    if let Some(JsonTree::Array(v)) = jget(root, "meshes"@) {
        assert(v.len() == v@.len());
    }
    if let Some(JsonTree::Array(v)) = jget(root, "skins"@) {
        assert(v.len() == v@.len());
    }
    if let Some(JsonTree::Array(v)) = jget(root, "materials"@) {
        assert(v.len() == v@.len());
    }
}

/// The asset texts and the VRM extension of a summary: the asset version
/// and generator are the strings under "version" and "generator" of the
/// top-level "asset" object (nothing where there is no such string); the
/// extension is named "VRMC_vrm" when the top-level "extensions" object has
/// that key, else "VRM" when it has that one, and nothing otherwise.
pub proof fn lemma_asset_and_extension(format: VrmSourceFormat, root: JsonTree)
    ensures
        ({
            let s = spec_inspect(format, root);
            let exts = jget(root, "extensions"@);
            &&& match oget(jget(root, "asset"@), "version"@) {
                Some(JsonTree::Str(v)) => s.asset_version == Some(v@),
                _ => s.asset_version is None,
            }
            &&& match oget(jget(root, "asset"@), "generator"@) {
                Some(JsonTree::Str(g)) => s.generator == Some(g@),
                _ => s.generator is None,
            }
            &&& oget(exts, "VRMC_vrm"@) is Some ==> s.vrm_extension_name == Some("VRMC_vrm"@)
            &&& oget(exts, "VRMC_vrm"@) is None && oget(exts, "VRM"@) is Some ==> s.vrm_extension_name == Some("VRM"@)
            &&& oget(exts, "VRMC_vrm"@) is None && oget(exts, "VRM"@) is None ==> s.vrm_extension_name is None
        }),
{
}

} // verus!
