use renderer::asset_manager::{AssetId, AssetManager, Named, Obj};
use renderer::model::mesh::{Mesh, MeshInstance};
use renderer::model::model::{
    load_meshes, mesh_name, reverse_winding, widen_indices, MeshSource, Model, ModelInstance,
};
use renderer::texture::{Bitmap, Texture};

// A vertex is a point on a line, a position in the world is that point moved,
// and a box is the pair of its ends.
type TestMesh = Mesh<i32, i32, (i32, i32), Texture<u8>>;
type TestAssets = AssetManager<i32, i32, (i32, i32), u8>;

fn mesh(name: &str, vertices: Vec<i32>) -> TestMesh {
    let count = vertices.len();
    let low = vertices.iter().copied().min().unwrap_or(0);
    let high = vertices.iter().copied().max().unwrap_or(0);
    let indices = (0..count / 3 * 3).collect();
    Mesh::new(name.to_owned(), vertices, indices, None, (low, high))
}

fn texture(name: &str) -> Texture<u8> {
    Texture::from_bitmap(Bitmap::new(1, 1, vec![7]), name.to_owned(), 0, &|w: &[u8; 9]| w[4])
}

fn source(name: &str, indices: Vec<u32>, material_id: Option<usize>) -> MeshSource<i32, (i32, i32)> {
    MeshSource { name: name.to_owned(), indices, vertices: vec![1, 2, 3], local_bounds: (1, 3), material_id }
}

#[test]
fn mesh_new_has_no_instances() {
    let m = mesh("line", vec![1, 2, 3]);
    assert_eq!(m.name(), "line");
    assert_eq!(m.vertices, vec![1, 2, 3]);
    assert_eq!(m.indices, vec![0, 1, 2]);
    assert_eq!(m.local_bounds, (1, 3));
    assert!(m.texture_id.is_none());
    assert_eq!(m.instances.len(), 0);
    assert!(m.free_ids.is_empty());
    assert_eq!(m.triangle_count(), 1);
}

#[test]
fn spawn_instance_places_every_vertex() {
    let mut m = mesh("line", vec![1, 2, 3]);
    let id = m.spawn_instance(&|v: &i32| v + 10, &|b: &(i32, i32)| (b.0 + 10, b.1 + 10));
    assert_eq!(id, 0);
    let instance = m.instances.get(0).unwrap();
    assert_eq!(instance.world_positions, vec![11, 12, 13]);
    assert_eq!(instance.world_bounds, (11, 13));
    assert_eq!(*instance.view_bounds(), (11, 13));
}

#[test]
fn instance_ids_are_reused_oldest_first() {
    let mut m = mesh("line", vec![1, 2, 3]);
    let place = |v: &i32| *v;
    let bound = |b: &(i32, i32)| *b;
    assert_eq!(m.spawn_instance(&place, &bound), 0);
    assert_eq!(m.spawn_instance(&place, &bound), 1);
    assert_eq!(m.spawn_instance(&place, &bound), 2);
    m.remove_instance(1);
    m.remove_instance(0);
    assert_eq!(m.instances.len(), 1);
    assert!(m.instances.get(1).is_none());
    assert_eq!(m.spawn_instance(&place, &bound), 1);
    assert_eq!(m.spawn_instance(&place, &bound), 0);
    assert_eq!(m.spawn_instance(&place, &bound), 3);
}

#[test]
fn update_instance_world_space_moves_the_instance() {
    let mut m = mesh("line", vec![1, 2, 3]);
    let id = m.spawn_instance(&|v: &i32| *v, &|b: &(i32, i32)| *b);
    m.update_instance_world_space(id, &|v: &i32| v * 2, &|b: &(i32, i32)| (b.0 * 2, b.1 * 2));
    let instance = m.instances.get(id).unwrap();
    assert_eq!(instance.world_positions, vec![2, 4, 6]);
    assert_eq!(instance.world_bounds, (2, 6));
    assert_eq!(instance.view_bounds, (1, 3));
}

#[test]
fn update_all_view_bounds_follows_world_bounds() {
    let mut m = mesh("line", vec![1, 2, 3]);
    m.spawn_instance(&|v: &i32| *v, &|b: &(i32, i32)| *b);
    m.spawn_instance(&|v: &i32| v + 5, &|b: &(i32, i32)| (b.0 + 5, b.1 + 5));
    m.update_all_view_bounds(&|b: &(i32, i32)| (-b.1, -b.0));
    assert_eq!(m.instances.get(0).unwrap().view_bounds, (-3, -1));
    assert_eq!(m.instances.get(1).unwrap().view_bounds, (-8, -6));
    assert_eq!(m.instances.get(1).unwrap().world_bounds, (6, 8));
    assert_eq!(m.instances.get(1).unwrap().world_positions, vec![6, 7, 8]);
}

#[test]
fn reverse_winding_swaps_the_ends_of_each_triangle() {
    let mut indices = vec![0, 1, 2, 3, 4, 5];
    reverse_winding(&mut indices);
    assert_eq!(indices, vec![2, 1, 0, 5, 4, 3]);
    let mut ragged = vec![7, 8, 9, 10, 11];
    reverse_winding(&mut ragged);
    assert_eq!(ragged, vec![9, 8, 7, 10, 11]);
    let mut short: Vec<usize> = vec![1, 2];
    reverse_winding(&mut short);
    assert_eq!(short, vec![1, 2]);
}

#[test]
fn widen_indices_keeps_values() {
    assert_eq!(widen_indices(&[0, 7, u32::MAX]), vec![0usize, 7, u32::MAX as usize]);
    assert!(widen_indices(&[]).is_empty());
}

#[test]
fn mesh_names_are_told_apart() {
    let sources = vec![
        source("Body", vec![], None),
        source("Head", vec![], None),
        source("Body", vec![], None),
        source("Body", vec![], None),
        source("Head", vec![], None),
    ];
    let names: Vec<String> = (0..5).map(|i| mesh_name(&sources, i)).collect();
    assert_eq!(names, vec!["Body", "Head", "Body (1)", "Body (2)", "Head (1)"]);
}

#[test]
fn mesh_names_count_in_decimal() {
    let sources: Vec<MeshSource<i32, (i32, i32)>> =
        (0..12).map(|_| source("m", vec![], None)).collect();
    assert_eq!(mesh_name(&sources, 0), "m");
    assert_eq!(mesh_name(&sources, 9), "m (9)");
    assert_eq!(mesh_name(&sources, 10), "m (10)");
    assert_eq!(mesh_name(&sources, 11), "m (11)");
}

#[test]
fn load_meshes_builds_each_mesh() {
    let sources = vec![
        source("Body", vec![0, 1, 2], Some(1)),
        source("Body", vec![2, 1, 0, 0, 1, 2], None),
    ];
    let meshes: Vec<(TestMesh, Option<usize>)> = load_meshes(sources, false);
    assert_eq!(meshes.len(), 2);
    assert_eq!(meshes[0].0.name(), "Body");
    assert_eq!(meshes[0].0.indices, vec![0, 1, 2]);
    assert_eq!(meshes[0].0.vertices, vec![1, 2, 3]);
    assert_eq!(meshes[0].0.local_bounds, (1, 3));
    assert_eq!(meshes[0].1, Some(1));
    assert!(meshes[0].0.texture_id.is_none());
    assert_eq!(meshes[1].0.name(), "Body (1)");
    assert_eq!(meshes[1].0.indices, vec![2, 1, 0, 0, 1, 2]);
    assert_eq!(meshes[1].1, None);
}

#[test]
fn load_meshes_reverses_winding() {
    let sources = vec![source("Body", vec![0, 1, 2, 2, 1, 0], None)];
    let meshes: Vec<(TestMesh, Option<usize>)> = load_meshes(sources, true);
    assert_eq!(meshes[0].0.indices, vec![2, 1, 0, 0, 1, 2]);
}

#[test]
fn model_new_has_no_instances() {
    let model: Model<TestMesh> = Model::new("tree".to_owned(), vec![AssetId::new(3), AssetId::new(1)]);
    assert_eq!(model.name(), "tree");
    assert_eq!(model.mesh_ids.len(), 2);
    assert_eq!(model.mesh_ids[0].index(), 3);
    assert_eq!(model.instances.len(), 0);
    assert!(model.free_ids.is_empty());
}

#[test]
fn spawn_mesh_instance_goes_to_the_mesh() {
    let mut assets = TestAssets::new();
    let first = assets.meshes.insert(mesh("a", vec![1, 2, 3]));
    let second = assets.meshes.insert(mesh("b", vec![4, 5, 6]));
    let id: AssetId<MeshInstance<i32, (i32, i32)>> =
        assets.spawn_mesh_instance(second, &|v: &i32| v + 1, &|b: &(i32, i32)| (b.0 + 1, b.1 + 1));
    assert_eq!(id.index(), 0);
    assert_eq!(assets.meshes.get(first).unwrap().instances.len(), 0);
    let placed = assets.meshes.get(second).unwrap().instances.get(0).unwrap();
    assert_eq!(placed.world_positions, vec![5, 6, 7]);
    assert_eq!(placed.world_bounds, (5, 7));
    assert_eq!(assets.meshes.get_id("b").map(|i| i.index()), Some(1));
}

#[test]
fn spawn_model_instance_places_each_mesh() {
    let mut assets = TestAssets::new();
    let a = assets.meshes.insert(mesh("a", vec![1, 2, 3]));
    let b = assets.meshes.insert(mesh("b", vec![4, 5, 6]));
    // mesh a is placed once on its own first
    assets.spawn_mesh_instance(a, &|v: &i32| *v, &|b: &(i32, i32)| *b);
    let model = assets.models.insert(Model::new("pair".to_owned(), vec![b, a, a]));
    let place = |v: &i32| v * 10;
    let bound = |b: &(i32, i32)| (b.0 * 10, b.1 * 10);
    let id: AssetId<ModelInstance> = assets.spawn_model_instance(model, &place, &bound);
    assert_eq!(id.index(), 0);
    let instance = assets.models.get(model).unwrap().instances.get(0).unwrap();
    assert_eq!(instance.mesh_instance_ids, vec![0, 1, 2]);
    assert_eq!(assets.meshes.get(a).unwrap().instances.len(), 3);
    assert_eq!(assets.meshes.get(b).unwrap().instances.len(), 1);
    assert_eq!(assets.meshes.get(a).unwrap().instances.get(2).unwrap().world_positions, vec![10, 20, 30]);
    assert_eq!(assets.meshes.get(b).unwrap().instances.get(0).unwrap().world_bounds, (40, 60));
    let again = assets.spawn_model_instance(model, &place, &bound);
    assert_eq!(again.index(), 1);
    let instance = assets.models.get(model).unwrap().instances.get(1).unwrap();
    assert_eq!(instance.mesh_instance_ids, vec![1, 3, 4]);
}

#[test]
fn model_from_obj_stores_textures_and_meshes() {
    let mut assets = TestAssets::new();
    let obj = Obj {
        meshes: vec![(mesh("body", vec![1, 2, 3]), Some(1)), (mesh("head", vec![4, 5, 6]), None)],
        textures: vec![texture("skin.png"), texture("cloth.png")],
    };
    let model = assets.model_from_obj(obj, "figure.obj".to_owned());
    assert_eq!(model.index(), 0);
    assert_eq!(assets.textures.len(), 2);
    assert_eq!(assets.textures.get_id("cloth.png").map(|i| i.index()), Some(1));
    assert_eq!(assets.meshes.len(), 2);
    let body = assets.meshes.get(AssetId::new(0)).unwrap();
    assert_eq!(body.name(), "body");
    assert_eq!(body.texture_id.map(|i| i.index()), Some(1));
    let head = assets.meshes.get(AssetId::new(1)).unwrap();
    assert!(head.texture_id.is_none());
    let stored = assets.models.get(model).unwrap();
    assert_eq!(stored.name(), "figure.obj");
    let mesh_ids: Vec<usize> = stored.mesh_ids.iter().map(|i| i.index()).collect();
    assert_eq!(mesh_ids, vec![0, 1]);
    assert_eq!(stored.instances.len(), 0);
}

#[test]
fn model_from_obj_reuses_textures_and_skips_known_meshes() {
    let mut assets = TestAssets::new();
    assets.textures.insert(texture("other.png"));
    assets.textures.insert(texture("skin.png"));
    assets.meshes.insert(mesh("head", vec![0, 0, 0]));
    let obj = Obj {
        meshes: vec![
            (mesh("head", vec![4, 5, 6]), Some(0)),
            (mesh("body", vec![1, 2, 3]), Some(0)),
            (mesh("tail", vec![1, 2, 3]), Some(1)),
            (mesh("hat", vec![1, 2, 3]), Some(5)),
        ],
        textures: vec![texture("skin.png"), texture("fur.png")],
    };
    let model = assets.model_from_obj(obj, "cat.obj".to_owned());
    // the texture that was there is used; the new one is stored behind it
    assert_eq!(assets.textures.len(), 3);
    assert_eq!(assets.textures.get_id("fur.png").map(|i| i.index()), Some(2));
    // the mesh that was there stays; the others are stored behind it
    assert_eq!(assets.meshes.len(), 4);
    assert_eq!(assets.meshes.get(AssetId::new(0)).unwrap().vertices, vec![0, 0, 0]);
    let body = assets.meshes.get(AssetId::new(1)).unwrap();
    assert_eq!(body.name(), "body");
    assert_eq!(body.texture_id.map(|i| i.index()), Some(1));
    let tail = assets.meshes.get(AssetId::new(2)).unwrap();
    assert_eq!(tail.texture_id.map(|i| i.index()), Some(2));
    let hat = assets.meshes.get(AssetId::new(3)).unwrap();
    assert!(hat.texture_id.is_none());
    let stored = assets.models.get(model).unwrap();
    let mesh_ids: Vec<usize> = stored.mesh_ids.iter().map(|i| i.index()).collect();
    assert_eq!(mesh_ids, vec![1, 2, 3]);
}

#[test]
fn model_from_obj_twice_gives_two_models() {
    let mut assets = TestAssets::new();
    let first = assets.model_from_obj(
        Obj { meshes: vec![(mesh("m", vec![1, 2, 3]), None)], textures: vec![] },
        "same.obj".to_owned(),
    );
    let second = assets.model_from_obj(
        Obj { meshes: vec![(mesh("m", vec![1, 2, 3]), None)], textures: vec![] },
        "same.obj".to_owned(),
    );
    assert_eq!(first.index(), 0);
    assert_eq!(second.index(), 1);
    assert_eq!(assets.meshes.len(), 1);
    assert_eq!(assets.models.get(first).unwrap().mesh_ids.len(), 1);
    assert!(assets.models.get(second).unwrap().mesh_ids.is_empty());
    assert_eq!(assets.models.get_id("same.obj").map(|i| i.index()), Some(1));
}
