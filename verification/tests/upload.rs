use walkers_editor::cache::Change;
use walkers_editor::data;
use walkers_editor::osm::{OsmToken, TargetServer};
use walkers_editor::osmchange::{tag_list, Modify, Nd, Node, OsmChange, Tag, Way};
use walkers_editor::states::{AuthenticatorState, UploaderState};
use walkers_editor::tags::Tags;

fn way(id: u64, version: u32, tags: &[(&str, &str)]) -> data::Way {
    let mut t = Tags::new();
    for (k, v) in tags {
        t.insert(k.to_string(), v.to_string());
    }
    data::Way { id, nodes: vec![1, 2], tags: t, changeset: 77, version }
}

fn kv(tags: &[Tag]) -> Vec<(String, String)> {
    tags.iter().map(|t| (t.k.clone(), t.v.clone())).collect()
}

#[test]
fn tag_from_a_pair() {
    let k = "highway".to_string();
    let v = "path".to_string();
    let t = Tag::from((&k, &v));
    assert_eq!(t.k, "highway");
    assert_eq!(t.v, "path");
    let d = Tag::default();
    assert_eq!(d.k, "");
    assert_eq!(d.v, "");
    assert_eq!(Nd::default().node, 0);
}

#[test]
fn upload_way_from_a_way_of_the_store() {
    let w = Way::from(&way(12, 3, &[("highway", "path"), ("name", "x")]));
    assert_eq!(w.id, 12);
    assert_eq!(w.changeset, 77);
    assert_eq!(w.version, 3);
    assert_eq!(
        kv(&w.tags),
        vec![("highway".to_string(), "path".to_string()), ("name".to_string(), "x".to_string())]
    );
    let w = Way::from(&way(i64::MAX as u64, 1, &[]));
    assert_eq!(w.id, i64::MAX);
    assert!(w.tags.is_empty());
    let mut t = Tags::new();
    t.insert("a".to_string(), "b".to_string());
    assert_eq!(kv(&tag_list(&t)), vec![("a".to_string(), "b".to_string())]);
}

#[test]
fn modify_is_empty_without_nodes_and_ways() {
    let mut m = Modify::default();
    assert!(m.is_empty());
    m.way.push(Way::from(&way(1, 1, &[])));
    assert!(!m.is_empty());
    let mut m = Modify::default();
    m.node.push(Node { id: 1, changeset: 0, version: 1, tags: vec![] });
    assert!(!m.is_empty());
}

#[test]
fn upload_of_no_edits_changes_nothing() {
    let c = OsmChange::from(&vec![], "editor/1.0");
    assert_eq!(c.generator, "editor/1.0");
    assert!(c.modify.is_none());
    let d = OsmChange::default();
    assert_eq!(d.generator, "");
    assert!(d.modify.is_none());
}

#[test]
fn upload_holds_each_way_once_as_its_last_edit_leaves_it() {
    let changes = vec![
        Change::UpdateWay(5, way(5, 1, &[("v", "first of five")])),
        Change::UpdateWay(9, way(9, 4, &[("v", "only of nine")])),
        Change::UpdateWay(5, way(5, 1, &[("v", "second of five")])),
        Change::UpdateWay(3, way(3, 2, &[("v", "first of three")])),
        Change::UpdateWay(5, way(5, 1, &[("v", "last of five")])),
        Change::UpdateWay(3, way(3, 2, &[("v", "last of three")])),
    ];
    let c = OsmChange::from(&changes, "g");
    let m = c.modify.unwrap();
    assert!(m.node.is_empty());
    let got: Vec<(i64, String)> = m.way.iter().map(|w| (w.id, w.tags[0].v.clone())).collect();
    assert_eq!(
        got,
        vec![
            (5, "last of five".to_string()),
            (9, "only of nine".to_string()),
            (3, "last of three".to_string())
        ]
    );
    assert_eq!(m.way[1].version, 4);
    assert_eq!(m.way[1].changeset, 77);
}

#[test]
fn prepare_upload_sets_changeset_and_raises_node_versions() {
    let mut c = OsmChange {
        generator: "g".to_string(),
        modify: Some(Modify {
            node: vec![
                Node { id: 1, changeset: 5, version: 1, tags: vec![] },
                Node {
                    id: 2,
                    changeset: 6,
                    version: 41,
                    tags: vec![Tag { k: "k".to_string(), v: "v".to_string() }],
                },
                Node { id: 3, changeset: 7, version: u32::MAX - 1, tags: vec![] },
            ],
            way: vec![Way::from(&way(10, 3, &[("a", "b")])), Way::from(&way(11, 8, &[]))],
        }),
    };
    c.prepare_upload(999);
    assert_eq!(c.generator, "g");
    let m = c.modify.unwrap();
    let nodes: Vec<(i64, u64, u32)> = m.node.iter().map(|n| (n.id, n.changeset, n.version)).collect();
    assert_eq!(nodes, vec![(1, 999, 2), (2, 999, 42), (3, 999, u32::MAX)]);
    assert_eq!(kv(&m.node[1].tags), vec![("k".to_string(), "v".to_string())]);
    let ways: Vec<(i64, u64, u32)> = m.way.iter().map(|w| (w.id, w.changeset, w.version)).collect();
    assert_eq!(ways, vec![(10, 999, 3), (11, 999, 8)]);
    assert_eq!(kv(&m.way[0].tags), vec![("a".to_string(), "b".to_string())]);
}

#[test]
fn prepare_upload_of_nothing_is_nothing() {
    let mut c = OsmChange::default();
    c.prepare_upload(5);
    assert!(c.modify.is_none());
    let mut c = OsmChange { generator: String::new(), modify: Some(Modify::default()) };
    c.prepare_upload(5);
    assert!(c.modify.unwrap().is_empty());
}

#[test]
fn uploader_takes_in_the_answer() {
    let mut u = UploaderState::default();
    assert!(u.changeset_creation.is_none());
    assert_eq!(u.osmchange_text, "");
    u.receive_changeset(Ok(17));
    assert_eq!(u.changeset_creation, Some(Ok(17)));
    u.receive_changeset(Err("refused".to_string()));
    assert_eq!(u.changeset_creation, Some(Err("refused".to_string())));
}

#[test]
fn authenticator_files_the_token_under_its_server() {
    let mut a = AuthenticatorState::default();
    a.request_pending = true;
    a.authorization_code = "code".to_string();
    assert!(!a.is_authenticated(TargetServer::OpenStreetMap));
    assert!(!a.is_authenticated(TargetServer::OpenStreetMapDev));
    let token = OsmToken {
        access_token: "t".to_string(),
        token_type: "Bearer".to_string(),
        scope: "write_api".to_string(),
        created_at: 1,
    };
    let copy = token.clone();
    assert_eq!(copy.access_token, "t");
    assert_eq!(copy.token_type, "Bearer");
    assert_eq!(copy.scope, "write_api");
    assert_eq!(copy.created_at, 1);
    a.receive_token(Ok(token), TargetServer::OpenStreetMapDev);
    assert!(!a.request_pending);
    assert_eq!(a.authorization_code, "code");
    assert!(a.is_authenticated(TargetServer::OpenStreetMapDev));
    assert!(!a.is_authenticated(TargetServer::OpenStreetMap));
    a.receive_token(Err("no".to_string()), TargetServer::OpenStreetMap);
    assert!(!a.is_authenticated(TargetServer::OpenStreetMap));
    assert!(a.is_authenticated(TargetServer::OpenStreetMapDev));
    a.receive_token(Err("expired".to_string()), TargetServer::OpenStreetMapDev);
    assert!(!a.is_authenticated(TargetServer::OpenStreetMapDev));
}
