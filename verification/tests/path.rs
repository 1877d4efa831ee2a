use std::path::Path;

use swarf::path::frame_path;

fn with_std(out: &str, frame: u32) -> String {
    let path = Path::new(out);
    let stem = path.file_stem().and_then(|s| s.to_str()).unwrap_or("shot");
    let ext = path.extension().and_then(|s| s.to_str()).unwrap_or("png");
    path.with_file_name(format!("{stem}-{frame:04}.{ext}"))
        .to_string_lossy()
        .into_owned()
}

#[test]
fn frame_number_goes_into_the_file_name() {
    assert_eq!(frame_path("out.png", 7), "out-0007.png");
    assert_eq!(frame_path("out", 0), "out-0000.png");
    assert_eq!(frame_path("a/b/out.tar.gz", 12_345), "a/b/out.tar-12345.gz");
    assert_eq!(frame_path("/out.png", 1), "/out-0001.png");
}

#[test]
fn odd_paths_are_taken_as_the_standard_library_does() {
    for out in [
        "", ".", "..", "/", "//", "a", "a/", "a//", "a/.", "a/./", "a/..", "./a", ".//a", "./",
        "./.", "./..", "../a", "../", "/.", "/..", "/a", "//a", "/a/", "/a//b", "a/b", "a//b/",
        "a/./b", "a/.//./", ".a", ".a.b", "..a", "...", "a.", "a..", ".", "./.hidden", "a/.b.c/",
        "dir.d/file", "dir.d/", "dir/../x.png", "\u{e9}/\u{fc}.\u{f1}", "a b/c d.e f", "./././x",
        "././.", "a/./.", "..//", "x/.y", "x/y.", "/./a", "/.//", "/../", "a/b/..", "a/b/../",
        "./a/", "./a/.", ".a/", "a-0001.png", "a.png/", "a.png/.",
    ] {
        for frame in [0, 7, 10_000] {
            assert_eq!(frame_path(out, frame), with_std(out, frame), "{out:?}");
        }
    }
}

#[test]
fn every_short_path_is_taken_as_the_standard_library_does() {
    let alphabet = ['/', '.', 'a'];
    for len in 0..=7u32 {
        for code in 0..3u32.pow(len) {
            let mut out = String::new();
            let mut rest = code;
            for _ in 0..len {
                out.push(alphabet[(rest % 3) as usize]);
                rest /= 3;
            }
            assert_eq!(frame_path(&out, 3), with_std(&out, 3), "{out:?}");
        }
    }
}

#[test]
fn frames_go_to_different_files() {
    let mut seen: Vec<String> = (0..200).map(|frame| frame_path("x/out.png", frame * 97)).collect();
    seen.sort();
    seen.dedup();
    assert_eq!(seen.len(), 200);
}
