use assignments_plugin::artifacts::ArtifactSet;
use assignments_plugin::model::ArtifactMapping;
use assignments_plugin::model::Assignment;
use assignments_plugin::model::NodeId;
use assignments_plugin::model::NodeProcessingError;
use assignments_plugin::processing::check_assignment;
use assignments_plugin::processing::contains_text;
use assignments_plugin::processing::files_to_check;
use assignments_plugin::processing::process_extension_field;
use assignments_plugin::processing::shares_an_id;
use assignments_plugin::processing::validate_assignments;

fn algebra() -> NodeId {
    NodeId { namespace: "math".to_string(), local_id: "algebra1".to_string() }
}

fn assignment(id: &str, attachments: Option<Vec<&str>>) -> Assignment {
    Assignment {
        id: id.to_string(),
        title: None,
        attachments: attachments.map(|list| list.into_iter().map(|a| a.to_string()).collect()),
    }
}

fn files(list: &[&str]) -> Vec<String> {
    list.iter().map(|p| p.to_string()).collect()
}

fn mapping(local_file: &str, target: &str) -> ArtifactMapping {
    ArtifactMapping {
        local_file: local_file.to_string(),
        root_relative_target_dir: target.to_string(),
    }
}

fn sorted(set: ArtifactSet) -> Vec<(String, String)> {
    let mut pairs: Vec<(String, String)> = set
        .to_vec()
        .into_iter()
        .map(|m| (m.local_file, m.root_relative_target_dir))
        .collect();
    pairs.sort();
    pairs
}

fn pairs(list: &[(&str, &str)]) -> Vec<(String, String)> {
    let mut pairs: Vec<(String, String)> =
        list.iter().map(|(a, b)| (a.to_string(), b.to_string())).collect();
    pairs.sort();
    pairs
}

fn remarks_of(result: Result<ArtifactSet, NodeProcessingError>) -> Vec<String> {
    match result {
        Err(NodeProcessingError::Remarks(remarks)) => remarks,
        Err(NodeProcessingError::CannotProcessFieldType) => panic!("field was refused"),
        Ok(_) => panic!("processing succeeded"),
    }
}

#[test]
fn readable_content_and_attachment_are_mapped() {
    let decoded = Ok(vec![assignment("ex1", Some(vec!["hint.png"]))]);
    let readable = files(&[
        "/clusters/root/algebra1/ex1/contents.html",
        "/clusters/root/algebra1/ex1/hint.png",
    ]);
    let result =
        process_extension_field(&algebra(), "/clusters/root", "assignments", &decoded, &readable);
    let set = result.expect("both files are readable");
    assert_eq!(set.len(), 2);
    assert_eq!(
        sorted(set),
        pairs(&[
            ("/clusters/root/algebra1/ex1/contents.html", "math/algebra1/assignments/ex1"),
            ("/clusters/root/algebra1/ex1/hint.png", "math/algebra1/assignments/ex1/attachments"),
        ])
    );
}

#[test]
fn distinct_ids_with_all_files_readable_succeed() {
    let list = vec![
        assignment("a", Some(vec!["one.txt", "sub/two.txt"])),
        assignment("b", None),
        assignment("c", Some(vec![])),
    ];
    let decoded = Ok(list);
    let readable = files_to_check(&algebra(), "/r", "assignments", &decoded);
    assert_eq!(
        readable,
        files(&[
            "/r/algebra1/a/contents.html",
            "/r/algebra1/a/one.txt",
            "/r/algebra1/a/sub/two.txt",
            "/r/algebra1/b/contents.html",
            "/r/algebra1/c/contents.html",
        ])
    );
    let set = process_extension_field(&algebra(), "/r", "assignments", &decoded, &readable)
        .expect("every file is readable");
    assert_eq!(
        sorted(set),
        pairs(&[
            ("/r/algebra1/a/contents.html", "math/algebra1/assignments/a"),
            ("/r/algebra1/a/one.txt", "math/algebra1/assignments/a/attachments"),
            ("/r/algebra1/a/sub/two.txt", "math/algebra1/assignments/a/attachments"),
            ("/r/algebra1/b/contents.html", "math/algebra1/assignments/b"),
            ("/r/algebra1/c/contents.html", "math/algebra1/assignments/c"),
        ])
    );
}

#[test]
fn empty_list_succeeds_with_no_mapping() {
    let list: Vec<Assignment> = vec![];
    let set = validate_assignments(&algebra(), "/r", &list, &files(&[])).expect("nothing to remark");
    assert_eq!(set.len(), 0);
    assert!(files_to_check(&algebra(), "/r", "assignments", &Ok(list)).is_empty());
}

#[test]
fn shared_id_is_remarked_even_if_files_are_readable() {
    let list = vec![assignment("ex1", None), assignment("ex2", None), assignment("ex1", None)];
    let readable = files(&["/r/algebra1/ex1/contents.html", "/r/algebra1/ex2/contents.html"]);
    assert!(shares_an_id(&list));
    let remarks = remarks_of(validate_assignments(&algebra(), "/r", &list, &readable));
    assert_eq!(remarks, vec!["Duplicate assignment IDs in node math__algebra1".to_string()]);
}

#[test]
fn shared_id_is_remarked_first_when_files_are_unreadable() {
    let list = vec![assignment("ex1", None), assignment("ex1", Some(vec!["a.png"]))];
    let remarks = remarks_of(validate_assignments(&algebra(), "/r", &list, &files(&[])));
    assert_eq!(
        remarks,
        vec![
            "Duplicate assignment IDs in node math__algebra1".to_string(),
            "Assignment ex1 associated with node algebra1 lacks a readable contents.html file."
                .to_string(),
            "Assignment ex1 associated with node algebra1 lacks a readable contents.html file."
                .to_string(),
            "Attachment cannot be read at /r/algebra1/ex1/a.png".to_string(),
        ]
    );
}

#[test]
fn distinct_ids_are_not_reported_as_shared() {
    assert!(!shares_an_id(&vec![assignment("a", None), assignment("b", None)]));
    assert!(!shares_an_id(&vec![assignment("a", None)]));
    assert!(!shares_an_id(&vec![]));
}

#[test]
fn unreadable_content_is_remarked_and_not_mapped() {
    let list = vec![assignment("A", Some(vec!["hint.png"])), assignment("B", None)];
    let readable = files(&["/r/algebra1/A/hint.png", "/r/algebra1/B/contents.html"]);
    let remarks = remarks_of(validate_assignments(&algebra(), "/r", &list, &readable));
    assert_eq!(
        remarks,
        vec!["Assignment A associated with node algebra1 lacks a readable contents.html file."
            .to_string()]
    );

    let mut seen: Vec<String> = vec![];
    let mut set = ArtifactSet::new();
    check_assignment(&algebra(), "/r", &list[0], &readable, &mut seen, &mut set);
    assert_eq!(seen, remarks);
    assert_eq!(
        sorted(set),
        pairs(&[("/r/algebra1/A/hint.png", "math/algebra1/assignments/A/attachments")])
    );
}

#[test]
fn unreadable_attachment_is_remarked_with_its_resolved_path() {
    let list = vec![assignment("ex1", Some(vec!["hint.png", "img/figure.svg"]))];
    let readable = files(&["/r/algebra1/ex1/contents.html", "/r/algebra1/ex1/hint.png"]);
    let remarks = remarks_of(validate_assignments(&algebra(), "/r", &list, &readable));
    assert_eq!(
        remarks,
        vec!["Attachment cannot be read at /r/algebra1/ex1/img/figure.svg".to_string()]
    );

    let mut seen: Vec<String> = vec![];
    let mut set = ArtifactSet::new();
    check_assignment(&algebra(), "/r", &list[0], &readable, &mut seen, &mut set);
    assert!(!set.contains(&mapping(
        "/r/algebra1/ex1/img/figure.svg",
        "math/algebra1/assignments/ex1/attachments"
    )));
    assert!(set.contains(&mapping(
        "/r/algebra1/ex1/hint.png",
        "math/algebra1/assignments/ex1/attachments"
    )));
    assert_eq!(set.len(), 2);
}

#[test]
fn remarks_come_in_the_order_of_the_files() {
    let list = vec![
        assignment("one", Some(vec!["a", "b"])),
        assignment("two", Some(vec!["c"])),
    ];
    let readable = files(&["/r/algebra1/one/a"]);
    let remarks = remarks_of(validate_assignments(&algebra(), "/r", &list, &readable));
    assert_eq!(
        remarks,
        vec![
            "Assignment one associated with node algebra1 lacks a readable contents.html file."
                .to_string(),
            "Attachment cannot be read at /r/algebra1/one/b".to_string(),
            "Assignment two associated with node algebra1 lacks a readable contents.html file."
                .to_string(),
            "Attachment cannot be read at /r/algebra1/two/c".to_string(),
        ]
    );
}

#[test]
fn processing_twice_gives_the_same_outcome() {
    let good = Ok(vec![assignment("ex1", Some(vec!["hint.png", "hint.png"]))]);
    let readable = files(&["/r/algebra1/ex1/contents.html", "/r/algebra1/ex1/hint.png"]);
    let first = process_extension_field(&algebra(), "/r", "assignments", &good, &readable);
    let second = process_extension_field(&algebra(), "/r", "assignments", &good, &readable);
    let first = sorted(first.expect("readable"));
    assert_eq!(first.len(), 2);
    assert_eq!(first, sorted(second.expect("readable")));

    let none = files(&[]);
    let first = remarks_of(process_extension_field(&algebra(), "/r", "assignments", &good, &none));
    let second = remarks_of(process_extension_field(&algebra(), "/r", "assignments", &good, &none));
    assert_eq!(first.len(), 3);
    assert_eq!(first, second);
}

#[test]
fn other_fields_are_refused_whatever_the_value() {
    let readable = files(&["/r/algebra1/ex1/contents.html"]);
    let values: Vec<Result<Vec<Assignment>, String>> = vec![
        Ok(vec![assignment("ex1", None)]),
        Ok(vec![]),
        Err("invalid type".to_string()),
    ];
    for decoded in values.iter() {
        for name in ["assignment", "Assignments", "", "assignments ", "exercises"] {
            let result = process_extension_field(&algebra(), "/r", name, decoded, &readable);
            match result {
                Err(error) => {
                    assert_eq!(error, NodeProcessingError::CannotProcessFieldType);
                    assert!(error.indicates_inability_to_process_field());
                },
                Ok(_) => panic!("field {name} was processed"),
            }
            assert!(files_to_check(&algebra(), "/r", name, decoded).is_empty());
        }
    }
}

#[test]
fn undecoded_value_gives_one_remark_with_the_message() {
    let decoded: Result<Vec<Assignment>, String> = Err("missing field `id`".to_string());
    let readable = files(&["/r/algebra1/ex1/contents.html"]);
    let result = process_extension_field(&algebra(), "/r", "assignments", &decoded, &readable);
    match &result {
        Err(error) => assert!(!error.indicates_inability_to_process_field()),
        Ok(_) => panic!("an undecoded value was processed"),
    }
    assert_eq!(
        remarks_of(result),
        vec![
            "Something went wrong while deserializing assignments in node math__algebra1: missing field `id`"
                .to_string()
        ]
    );
    assert!(files_to_check(&algebra(), "/r", "assignments", &decoded).is_empty());
}

#[test]
fn only_the_files_asked_for_matter() {
    let list = vec![assignment("ex1", Some(vec!["hint.png"]))];
    let exact = files(&["/r/algebra1/ex1/contents.html", "/r/algebra1/ex1/hint.png"]);
    let more = files(&[
        "/elsewhere",
        "/r/algebra1/ex1/hint.png",
        "/r/algebra1/ex1/hint.png",
        "/r/algebra1/ex1/contents.html",
    ]);
    let first = validate_assignments(&algebra(), "/r", &list, &exact).expect("readable");
    let second = validate_assignments(&algebra(), "/r", &list, &more).expect("readable");
    assert_eq!(sorted(first), sorted(second));
}

#[test]
fn ids_are_used_as_path_segments_unchecked() {
    let list = vec![assignment("", None), assignment("../x", None)];
    let decoded = Ok(list);
    let asked = files_to_check(&algebra(), "/r", "assignments", &decoded);
    assert_eq!(asked, files(&["/r/algebra1/contents.html", "/r/algebra1/../x/contents.html"]));
    let set = process_extension_field(&algebra(), "/r", "assignments", &decoded, &asked)
        .expect("readable");
    assert_eq!(
        sorted(set),
        pairs(&[
            ("/r/algebra1/contents.html", "math/algebra1/assignments/"),
            ("/r/algebra1/../x/contents.html", "math/algebra1/assignments/../x"),
        ])
    );
}

#[test]
fn contains_text_finds_exact_matches_only() {
    let list = files(&["/a/b", "/a/c"]);
    assert!(contains_text(&list, "/a/b"));
    assert!(contains_text(&list, "/a/c"));
    assert!(!contains_text(&list, "/a"));
    assert!(!contains_text(&list, "/a/b/"));
    assert!(!contains_text(&files(&[]), ""));
}

#[test]
fn artifact_set_holds_an_identical_pair_once() {
    let mut set = ArtifactSet::new();
    assert_eq!(set.len(), 0);
    assert!(set.insert(mapping("/a", "t")));
    assert!(!set.insert(mapping("/a", "t")));
    assert!(set.insert(mapping("/a", "u")));
    assert!(set.insert(mapping("/b", "t")));
    assert_eq!(set.len(), 3);
    assert!(set.contains(&mapping("/a", "u")));
    assert!(!set.contains(&mapping("/b", "u")));
    assert_eq!(set.to_vec(), vec![mapping("/a", "t"), mapping("/a", "u"), mapping("/b", "t")]);
}

#[test]
fn the_handled_field_is_assignments() {
    assert_eq!(assignments_plugin::processing::handled_field(), "assignments");
    let decoded = Ok(vec![assignment("ex1", None)]);
    let asked = assignments_plugin::files_to_check(&algebra(), "/r", "assignments", &decoded);
    assert_eq!(asked, files(&["/r/algebra1/ex1/contents.html"]));
    let set = assignments_plugin::process_extension_field(
        &algebra(),
        "/r",
        "assignments",
        &decoded,
        &asked,
    )
    .expect("readable");
    assert_eq!(sorted(set), pairs(&[("/r/algebra1/ex1/contents.html", "math/algebra1/assignments/ex1")]));
}

#[test]
fn nothing_is_mapped_when_anything_is_remarked() {
    let list = vec![assignment("good", Some(vec!["a.png"])), assignment("bad", None)];
    let readable = files(&["/r/algebra1/good/contents.html", "/r/algebra1/good/a.png"]);
    let result = validate_assignments(&algebra(), "/r", &list, &readable);
    assert_eq!(
        result.err(),
        Some(NodeProcessingError::Remarks(vec![
            "Assignment bad associated with node algebra1 lacks a readable contents.html file."
                .to_string()
        ]))
    );
}

#[test]
fn an_absolute_attachment_replaces_the_assignment_directory() {
    let list = vec![assignment("ex1", Some(vec!["/shared/logo.png"]))];
    let decoded = Ok(list);
    let asked = files_to_check(&algebra(), "/r", "assignments", &decoded);
    assert_eq!(asked, files(&["/r/algebra1/ex1/contents.html", "/shared/logo.png"]));
}
