use yt_dlp_ui::catalog::ArchiveInfo;
use yt_dlp_ui::order::{sort_stable, text_not_after};

fn archive(name: &str, size: u64) -> ArchiveInfo {
    ArchiveInfo {
        name: name.to_string(),
        size,
        encoded_name: String::new(),
        size_display: String::new(),
    }
}

#[test]
fn order_of_texts() {
    let texts = vec!["", "a", "aa", "ab", "b", "B", "ä", "z", "\u{ffff}", "\u{10000}", "a\u{0}"];
    for a in &texts {
        for b in &texts {
            assert_eq!(text_not_after(a, b), a <= b, "{:?} {:?}", a, b);
        }
    }
}

#[test]
fn sorting_is_stable() {
    let items = vec![
        archive("a", 2),
        archive("b", 9),
        archive("c", 2),
        archive("d", 0),
        archive("e", 9),
        archive("f", 2),
    ];
    let names: Vec<String> = sort_stable(items).into_iter().map(|x| x.name).collect();
    assert_eq!(names, vec!["b", "e", "a", "c", "f", "d"]);
}

#[test]
fn sorting_agrees_with_std() {
    let mut seed: u64 = 12_345;
    let mut items: Vec<ArchiveInfo> = Vec::new();
    let mut expected: Vec<(u64, String)> = Vec::new();
    for i in 0..200 {
        seed = seed.wrapping_mul(6_364_136_223_846_793_005).wrapping_add(1_442_695_040_888_963_407);
        let size = (seed >> 33) % 20;
        let name = format!("n{}", i);
        items.push(archive(&name, size));
        expected.push((size, name));
    }
    expected.sort_by(|a, b| b.0.cmp(&a.0));
    let sorted: Vec<(u64, String)> =
        sort_stable(items).into_iter().map(|x| (x.size, x.name)).collect();
    assert_eq!(sorted, expected);
    assert!(sort_stable(Vec::<ArchiveInfo>::new()).is_empty());
}
