use bevy_svg::mesh_linker::{link_svg_meshes, LoadedSvg, SvgAssetEvent, SvgEntity};

fn entity(id: u64, svg_2d: Option<u64>, svg_3d: Option<u64>) -> SvgEntity {
    SvgEntity {
        entity: id,
        svg_2d,
        svg_3d,
        material_2d: svg_2d.map(|_| 0),
        material_3d: svg_3d.map(|_| 0),
        mesh_2d: svg_2d.map(|_| 50),
        mesh_3d: svg_3d.map(|_| 60),
    }
}

#[test]
fn loaded_svg_sets_mesh_and_material() {
    let ents = vec![entity(1, Some(7), None), entity(2, None, Some(7)), entity(3, Some(8), None)];
    let svgs = vec![LoadedSvg { svg: 7, mesh: 70 }];
    let out = link_svg_meshes(ents, &svgs, &vec![SvgAssetEvent::Added(7), SvgAssetEvent::LoadedWithDependencies(7)], &vec![]);
    assert_eq!(out.entities[0].mesh_2d, Some(70));
    assert_eq!(out.entities[0].material_2d, Some(7));
    assert_eq!(out.entities[1].mesh_3d, Some(70));
    assert_eq!(out.entities[1].material_3d, Some(7));
    assert_eq!(out.entities[2], entity(3, Some(8), None));
    assert!(out.removed_meshes.is_empty());
    assert!(out.despawned.is_empty());
}

#[test]
fn modified_svg_replaces_and_removes_old_meshes() {
    let ents = vec![entity(1, Some(7), None), entity(2, None, Some(7))];
    let svgs = vec![LoadedSvg { svg: 7, mesh: 50 }];
    let out = link_svg_meshes(ents, &svgs, &vec![SvgAssetEvent::Modified(7)], &vec![]);
    // Entity 1 already holds mesh 50; entity 2's mesh 60 is replaced and removed.
    assert_eq!(out.removed_meshes, vec![60]);
    assert_eq!(out.entities[1].mesh_3d, Some(50));
    assert_eq!(out.entities[1].material_3d, Some(0));
}

#[test]
fn removed_svg_despawns_its_entities() {
    let ents = vec![entity(1, Some(7), None), entity(2, Some(9), Some(7)), entity(3, None, Some(7))];
    let out = link_svg_meshes(ents, &vec![], &vec![SvgAssetEvent::Removed(7), SvgAssetEvent::Unused(7)], &vec![]);
    // Entity 2 shows SVG 9 in 2D, which decides the match.
    assert_eq!(out.despawned, vec![1, 3]);
}

#[test]
fn changed_handles_are_refreshed_when_loaded() {
    let ents = vec![entity(1, Some(7), None), entity(2, None, Some(8)), entity(3, Some(9), None)];
    let svgs = vec![LoadedSvg { svg: 7, mesh: 71 }, LoadedSvg { svg: 8, mesh: 81 }];
    let out = link_svg_meshes(ents, &svgs, &vec![], &vec![2, 3, 42, 1]);
    assert_eq!(out.entities[0].mesh_2d, Some(71));
    assert_eq!(out.entities[1].mesh_3d, Some(81));
    assert_eq!(out.entities[2].mesh_2d, Some(50));
}
