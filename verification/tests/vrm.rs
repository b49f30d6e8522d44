use rustgames::vrm::{
    extract_gltf_json, parse_json, GltfError, InspectError, JsonTree, VrmInspection, VrmSourceFormat, GLB_MAGIC,
    JSON_CHUNK,
};

fn le(v: u32) -> [u8; 4] {
    v.to_le_bytes()
}

fn glb(chunks: &[(u32, &[u8])], total_extra: i64) -> Vec<u8> {
    let mut body = Vec::new();
    for (kind, data) in chunks {
        body.extend_from_slice(&le(data.len() as u32));
        body.extend_from_slice(&le(*kind));
        body.extend_from_slice(data);
        while body.len() % 4 != 0 {
            body.push(b' ');
        }
    }
    let total = (12 + body.len()) as i64 + total_extra;
    let mut out = Vec::new();
    out.extend_from_slice(&le(GLB_MAGIC));
    out.extend_from_slice(&le(2));
    out.extend_from_slice(&le(total as u32));
    out.extend_from_slice(&body);
    out
}

const VRM0: &str = r#"{"asset":{"version":"2.0","generator":"g"},"nodes":[1,2,3],"meshes":[],"extensionsUsed":["VRM",5,"KHR"],"extensions":{"VRM":{"specVersion":"0.0","meta":{"title":"T","author":["A","B"]},"humanoid":{"humanBones":[{"bone":"hips","node":3},{"name":"spine","nodeIndex":4},{"bone":"x"}]},"blendShapeMaster":{"blendShapeGroups":[{},{}]}}}}"#;

const VRM1: &str = r#"{"extensions":{"VRMC_vrm":{"specVersion":"1.0","meta":{"authors":["Z"],"name":"n"},"humanoid":{"humanBones":{"hips":{"node":0},"head":5,"neck":{"x":1}}},"expressions":{"a":1,"b":2,"c":3}}}}"#;

#[test]
fn vrm0_json_is_summed_up() {
    let v = VrmInspection::from_bytes(VRM0.as_bytes()).unwrap();
    assert_eq!(v.source_format, VrmSourceFormat::GltfJson);
    assert_eq!(v.asset_version.as_deref(), Some("2.0"));
    assert_eq!(v.generator.as_deref(), Some("g"));
    assert_eq!((v.node_count, v.mesh_count, v.skin_count, v.material_count), (3, 0, 0, 0));
    assert_eq!(v.extensions_used, vec!["VRM".to_string(), "KHR".to_string()]);
    assert!(v.extensions_required.is_empty());
    assert_eq!(v.vrm_extension_name.as_deref(), Some("VRM"));
    assert_eq!(v.vrm_version.as_deref(), Some("0.0"));
    assert_eq!(v.vrm_title.as_deref(), Some("T"));
    assert_eq!(v.vrm_author.as_deref(), Some("A"));
    let bones: Vec<(String, u32)> = v.human_bones.iter().map(|b| (b.bone.clone(), b.node)).collect();
    assert_eq!(bones, vec![("hips".to_string(), 3), ("spine".to_string(), 4)]);
    assert_eq!(v.blendshape_group_count, 2);
}

#[test]
fn vrm1_in_glb_is_summed_up() {
    let bytes = glb(&[(0x004e_4942, &[1, 2, 3]), (JSON_CHUNK, VRM1.as_bytes())], 0);
    let v = VrmInspection::from_bytes(&bytes).unwrap();
    assert_eq!(v.source_format, VrmSourceFormat::Glb);
    assert_eq!(v.asset_version, None);
    assert_eq!(v.vrm_extension_name.as_deref(), Some("VRMC_vrm"));
    assert_eq!(v.vrm_version.as_deref(), Some("1.0"));
    assert_eq!(v.vrm_title, None);
    assert_eq!(v.vrm_author.as_deref(), Some("Z"));
    let bones: Vec<(String, u32)> = v.human_bones.iter().map(|b| (b.bone.clone(), b.node)).collect();
    assert_eq!(bones, vec![("head".to_string(), 5), ("hips".to_string(), 0)]);
    assert_eq!(v.blendshape_group_count, 3);
}

#[test]
fn glb_errors_are_told_apart() {
    let too_long = glb(&[(JSON_CHUNK, b"{}")], 8);
    assert_eq!(extract_gltf_json(&too_long).err(), Some(GltfError::LengthExceedsData));
    let mut bad_chunk = glb(&[(JSON_CHUNK, b"{}")], 0);
    bad_chunk[12] = 200;
    assert_eq!(extract_gltf_json(&bad_chunk).err(), Some(GltfError::ChunkExceedsData));
    let no_json = glb(&[(0x004e_4942, &[0, 0, 0, 0])], 0);
    assert_eq!(extract_gltf_json(&no_json).err(), Some(GltfError::NoJsonChunk));
    assert!(matches!(
        VrmInspection::from_bytes(&no_json),
        Err(InspectError::Container(GltfError::NoJsonChunk))
    ));
    assert!(matches!(VrmInspection::from_bytes(b"{not json"), Err(InspectError::Json)));
}

#[test]
fn glb_json_chunk_is_extracted() {
    let bytes = glb(&[(JSON_CHUNK, b"{\"a\":1}")], 0);
    let (f, j) = extract_gltf_json(&bytes).unwrap();
    assert_eq!(f, VrmSourceFormat::Glb);
    assert_eq!(j, b"{\"a\":1}".to_vec());
    let (f, j) = extract_gltf_json(b"[1]").unwrap();
    assert_eq!(f, VrmSourceFormat::GltfJson);
    assert_eq!(j, b"[1]".to_vec());
}

#[test]
fn json_trees_keep_integers_and_sort_keys() {
    match parse_json(br#"{"b":[1,-2,1.5,"s",null,true],"a":{}}"#) {
        Some(JsonTree::Object(es)) => {
            assert_eq!(es.len(), 2);
            assert_eq!(es[0].0, "a");
            assert_eq!(es[1].0, "b");
            match &es[1].1 {
                JsonTree::Array(v) => {
                    assert!(matches!(v[0], JsonTree::Int(1)));
                    assert!(matches!(v[1], JsonTree::OtherNumber));
                    assert!(matches!(v[2], JsonTree::OtherNumber));
                    assert!(matches!(&v[3], JsonTree::Str(s) if s == "s"));
                    assert!(matches!(v[4], JsonTree::Null));
                    assert!(matches!(v[5], JsonTree::Bool(true)));
                },
                _ => panic!("array expected"),
            }
        },
        _ => panic!("object expected"),
    }
    assert!(parse_json(b"{").is_none());
}
