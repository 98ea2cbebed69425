use illustrator::resource::{chars_of, resolve, split, ImagePolicy};

fn found(owner: &str, href: &str) -> Option<String> {
    resolve(owner, href)
}

#[test]
fn references_are_meant_from_the_place_of_the_drawing() {
    let owner = "OEBPS/images/fig.svg";
    assert_eq!(found(owner, "pic.png").as_deref(), Some("OEBPS/images/pic.png"));
    assert_eq!(found(owner, "sub/pic.png").as_deref(), Some("OEBPS/images/sub/pic.png"));
    assert_eq!(found(owner, "../css/a.png").as_deref(), Some("OEBPS/css/a.png"));
    assert_eq!(found(owner, "../../a.png").as_deref(), Some("a.png"));
    assert_eq!(found(owner, "./a//b/./c").as_deref(), Some("OEBPS/images/a/b/c"));
    assert_eq!(found(owner, "a/../b").as_deref(), Some("OEBPS/images/b"));
    assert_eq!(found(owner, "..").as_deref(), Some("OEBPS"));
    assert_eq!(found(owner, "../..").as_deref(), Some(""));
    assert_eq!(found("fig.svg", "pic.png").as_deref(), Some("pic.png"));
    assert_eq!(found("./a/../fig.svg", "pic.png").as_deref(), Some("pic.png"));
    assert_eq!(found("ä/fig.svg", "ö.png").as_deref(), Some("ä/ö.png"));
}

#[test]
fn references_from_the_root_and_out_of_the_archive() {
    let owner = "OEBPS/images/fig.svg";
    assert_eq!(found(owner, "/cover.png").as_deref(), Some("cover.png"));
    assert_eq!(found(owner, "/a/../b.png").as_deref(), Some("b.png"));
    assert_eq!(found(owner, "../../../x.png"), None);
    assert_eq!(found(owner, "/../x.png"), None);
    assert_eq!(found("../fig.svg", "x.png"), None);
    assert_eq!(found(owner, ""), None);
    assert_eq!(found(owner, "http://example.com/x.png"), None);
    assert_eq!(found(owner, "data:image/png;base64,AAAA"), None);
    assert_eq!(found(owner, "a:b"), None);
    assert_eq!(found(owner, "dir/a:b").as_deref(), Some("OEBPS/images/dir/a:b"));
}

#[test]
fn an_image_in_an_image_loads_nothing() {
    let policy = ImagePolicy::chapter();
    assert!(policy.embedded_images);
    assert_eq!(policy.resolve("a/fig.svg", "b.png").as_deref(), Some("a/b.png"));
    assert_eq!(policy.resolve("a/fig.svg", "../../b.png"), None);
    let inner = policy.embedded();
    assert!(!inner.embedded_images);
    assert_eq!(inner.resolve("a/fig.svg", "b.png"), None);
    assert!(!inner.embedded().embedded_images);
}

#[test]
fn paths_are_cut_at_their_slashes() {
    let texts = |path: &str| -> Vec<String> {
        split(&chars_of(path)).iter().map(|s| s.iter().collect::<String>()).collect()
    };
    assert_eq!(texts(""), vec![""]);
    assert_eq!(texts("a"), vec!["a"]);
    assert_eq!(texts("/"), vec!["", ""]);
    assert_eq!(texts("a/b//c/"), vec!["a", "b", "", "c", ""]);
    assert_eq!(chars_of("äß"), vec!['ä', 'ß']);
}
