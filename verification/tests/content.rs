use markdown_render::{has_anchor, make_table_of_contents, Heading};

fn h(level: u32, id: &str) -> Heading {
    Heading {
        level,
        id: id.to_string(),
        permalink: String::new(),
        title: String::new(),
        children: vec![],
    }
}

#[test]
fn can_find_anchor_at_root() {
    let input = vec![
        Heading {
            level: 1,
            id: "1".to_string(),
            permalink: String::new(),
            title: String::new(),
            children: vec![],
        },
        Heading {
            level: 2,
            id: "1-1".to_string(),
            permalink: String::new(),
            title: String::new(),
            children: vec![],
        },
        Heading {
            level: 3,
            id: "1-1-1".to_string(),
            permalink: String::new(),
            title: String::new(),
            children: vec![],
        },
        Heading {
            level: 2,
            id: "1-2".to_string(),
            permalink: String::new(),
            title: String::new(),
            children: vec![],
        },
    ];

    assert!(has_anchor(&input, "1-2"));
}

#[test]
fn can_find_anchor_in_children() {
    let input = vec![Heading {
        level: 1,
        id: "1".to_string(),
        permalink: String::new(),
        title: String::new(),
        children: vec![
            Heading {
                level: 2,
                id: "1-1".to_string(),
                permalink: String::new(),
                title: String::new(),
                children: vec![],
            },
            Heading {
                level: 3,
                id: "1-1-1".to_string(),
                permalink: String::new(),
                title: String::new(),
                children: vec![],
            },
            Heading {
                level: 2,
                id: "1-2".to_string(),
                permalink: String::new(),
                title: String::new(),
                children: vec![],
            },
        ],
    }];

    assert!(has_anchor(&input, "1-2"));
}

#[test]
fn anchor_absent_is_not_found() {
    let input = vec![h(1, "alpha"), h(2, "beta")];
    assert!(!has_anchor(&input, "gamma"));
    assert!(!has_anchor(&[], "alpha"));
}

#[test]
fn toc_nests_by_level() {
    // flat levels [1, 2, 3, 2] become one top-level node with two children,
    // the first of which has one child
    let flat = vec![h(1, "a"), h(2, "b"), h(3, "c"), h(2, "d")];
    let toc = make_table_of_contents(flat);
    assert_eq!(toc.len(), 1);
    assert_eq!(toc[0].id, "a");
    assert_eq!(toc[0].children.len(), 2);
    assert_eq!(toc[0].children[0].id, "b");
    assert_eq!(toc[0].children[0].children.len(), 1);
    assert_eq!(toc[0].children[0].children[0].id, "c");
    assert_eq!(toc[0].children[1].id, "d");
    assert_eq!(toc[0].children[1].children.len(), 0);
}

#[test]
fn toc_keeps_sibling_order_and_level_skips() {
    // no level-skip validation: a level-4 straight after a level-1 is its child
    let flat = vec![h(1, "one"), h(4, "deep"), h(1, "two")];
    let toc = make_table_of_contents(flat);
    assert_eq!(toc.len(), 2);
    assert_eq!(toc[0].id, "one");
    assert_eq!(toc[0].children.len(), 1);
    assert_eq!(toc[0].children[0].id, "deep");
    assert_eq!(toc[1].id, "two");
}
