use rtx_vulkan_engine::paths::{
    base_directory, cache_file_name, cache_path, cache_path_for, dependency_candidates,
    find_gltf_dependencies, key_of_parts, normalize_path, sort_paths, temporary_cache_path,
    KeyedPath, PathPart,
};
use std::path::{Path, PathBuf};

#[test]
fn caches_beside_the_model() {
    assert_eq!(cache_path("models/Xenon.glb"), "models/Xenon.cache");
    assert_eq!(cache_path("models/plain"), "models/plain.cache");
    assert_eq!(cache_path("/a/b.tar.gz"), "/a/b.tar.cache");
    assert_eq!(cache_path("models/.hidden"), "models/.hidden.cache");
    assert_eq!(cache_path("../models/X.glb"), "../models/X.cache");
    assert_eq!(cache_path("models//./X.glb"), "models//./X.cache");
    assert_eq!(cache_path("..x"), "..cache");
}

#[test]
fn the_cache_of_a_cache_is_itself() {
    for source in ["models/Xenon.glb", "a.b.c", "/root.bin", "../m/.hidden", "m/x.cache"] {
        let cache = cache_path(source);
        assert_eq!(cache_path(&cache), cache);
        assert_eq!(Path::new(&cache).parent(), Path::new(source).parent());
        assert_eq!(Path::new(&cache).file_stem(), Path::new(source).file_stem());
        assert_eq!(Path::new(&cache).extension().unwrap(), "cache");
    }
    for source in ["", "/", "..", "a/..", "."] {
        assert_eq!(cache_path(source), source);
    }
    assert_eq!(cache_path("dir/a:b.glb"), "dir/a:b.cache");
    assert_eq!(cache_path("ab:c/x.glb"), "ab:c/x.cache");
}

#[test]
fn caches_in_their_directory() {
    let expected = Path::new("models").join("cache").join("Test_Room.cache");
    assert_eq!(PathBuf::from(cache_path_for("models/Test_Room.glb")), expected);
    let expected = Path::new("").join("cache").join("alone.cache");
    assert_eq!(PathBuf::from(cache_path_for("alone.glb")), expected);
    let expected = Path::new(".").join("cache").join("asset.cache");
    assert_eq!(PathBuf::from(cache_path_for("/")), expected);
    assert_eq!(PathBuf::from(cache_path_for("")), expected);
    let expected = Path::new("/").join("cache").join("x.cache");
    assert_eq!(PathBuf::from(cache_path_for("/x.glb")), expected);
    let expected = Path::new("../m").join("cache").join("x.cache");
    assert_eq!(PathBuf::from(cache_path_for("../m/x.glb")), expected);
    let expected = Path::new("a").join("cache").join("asset.cache");
    assert_eq!(PathBuf::from(cache_path_for("a/..")), expected);
    let separator = std::path::MAIN_SEPARATOR;
    let expected = Path::new("d").join("cache").join("x:y.cache");
    assert_eq!(PathBuf::from(cache_path_for("d/x:y.glb")), expected);
    let whole = format!("models{}cache{}Xenon.cache", separator, separator);
    assert_eq!(cache_path_for("models/Xenon.glb"), whole);
    assert_eq!(cache_file_name(None), "asset.cache");
    assert_eq!(cache_file_name(Some("x".to_string())), "x.cache");
    assert_eq!(base_directory(None), ".");
    assert_eq!(base_directory(Some("d".to_string())), "d");
}

#[test]
fn caches_are_written_aside() {
    assert_eq!(temporary_cache_path("m/cache/a.cache"), "m/cache/a.cache.tmp");
    assert_eq!(temporary_cache_path("../a"), "../a.cache.tmp");
    assert_eq!(temporary_cache_path("../a.x"), "../a.cache.tmp");
    assert_eq!(temporary_cache_path(".."), "..");
}

#[test]
fn canonical_paths_are_preferred() {
    let path = || "a/../b".to_string();
    assert_eq!(normalize_path(path(), Some("/x/b".to_string())), "/x/b");
    assert_eq!(normalize_path(path(), None), "a/../b");
    // A canonical path is its own.
    let known = normalize_path(path(), Some("/x/b".to_string()));
    assert_eq!(normalize_path(known.clone(), Some("/x/b".to_string())), known);
}

#[test]
fn named_files_lie_beside_the_model() {
    let uris = ["scene.bin".to_string(), "textures/wood.png".to_string()];
    let out = dependency_candidates("models/scene.gltf", &uris);
    assert_eq!(PathBuf::from(&out[0]), Path::new("models").join("scene.bin"));
    assert_eq!(PathBuf::from(&out[1]), Path::new("models").join("textures/wood.png"));
    let uris = ["../up.bin".to_string(), "/abs/x.png".to_string()];
    let out = dependency_candidates("alone.gltf", &uris);
    assert_eq!(out, vec!["../up.bin", "/abs/x.png"]);
    let uris_with_marks = ["data:image/png;base64,AA".to_string(), String::new()];
    let out = dependency_candidates("m/scene.gltf", &uris_with_marks);
    assert_eq!(PathBuf::from(&out[0]), Path::new("m").join("data:image/png;base64,AA"));
    assert_eq!(out[1], format!("m{}", std::path::MAIN_SEPARATOR));
    assert_eq!(dependency_candidates("scene.gltf", &[String::new()]), vec![""]);
    let out = dependency_candidates("/scene.gltf", &uris);
    assert_eq!(out, vec!["/../up.bin", "/abs/x.png"]);
}

#[test]
fn dependencies_are_sorted_as_paths() {
    let names = [
        "models/b.bin", "models/a.bin", "/abs/x", "models/a.bin", "models/a/z", "models.bin",
        "../up", "models/./a.bin", "models//b.bin", "models/ä.png", "models/a b",
    ];
    let named: Vec<String> = names.iter().map(|s| s.to_string()).collect();
    let out = find_gltf_dependencies("models/scene.gltf", &named);
    let mut expected: Vec<PathBuf> = vec![PathBuf::from("models/scene.gltf")];
    expected.extend(names.iter().map(PathBuf::from));
    expected.sort();
    expected.dedup();
    let got: Vec<PathBuf> = out.iter().map(|k| PathBuf::from(&k.path)).collect();
    assert_eq!(got, expected);
    let texts: Vec<&str> = out.iter().map(|k| k.path.as_str()).collect();
    let kept: Vec<&str> = expected.iter().map(|p| p.to_str().unwrap()).collect();
    assert_eq!(texts, kept);
}

#[test]
fn words_of_paths() {
    let parts = [PathPart::Root, PathPart::Name("a".to_string())];
    assert_eq!(key_of_parts(&parts), vec![2, 0, 5, 98, 0]);
    let parts = [PathPart::Parent, PathPart::Current, PathPart::Prefix("b".to_string())];
    assert_eq!(key_of_parts(&parts), vec![4, 0, 3, 0, 1, 99, 0]);
}

#[test]
fn the_first_of_equal_paths_stays() {
    let entry = |key: &[u16], path: &str| KeyedPath { key: key.to_vec(), path: path.to_string() };
    let list = [
        entry(&[2], "c"),
        entry(&[1, 5], "b"),
        entry(&[2], "again"),
        entry(&[1], "a"),
        entry(&[], "start"),
    ];
    let out = sort_paths(&list);
    let paths: Vec<&str> = out.iter().map(|k| k.path.as_str()).collect();
    assert_eq!(paths, vec!["start", "a", "b", "c"]);
}
