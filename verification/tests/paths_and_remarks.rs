use assignments_plugin::model::NodeId;
use assignments_plugin::paths::assignment_dir_of;
use assignments_plugin::paths::attachment_path_of;
use assignments_plugin::paths::attachment_target_dir_of;
use assignments_plugin::paths::content_path_of;
use assignments_plugin::paths::content_target_dir_of;
use assignments_plugin::paths::join_path;
use assignments_plugin::remarks::duplicate_ids_remark_of;
use assignments_plugin::remarks::malformed_remark_of;
use assignments_plugin::remarks::missing_content_remark_of;
use assignments_plugin::remarks::unreadable_attachment_remark_of;
use std::path::Path;

fn node(namespace: &str, local_id: &str) -> NodeId {
    NodeId { namespace: namespace.to_string(), local_id: local_id.to_string() }
}

#[test]
fn join_puts_one_separator_between_base_and_segment() {
    assert_eq!(join_path("/clusters/root", "algebra1"), "/clusters/root/algebra1");
    assert_eq!(join_path("a", "b/c"), "a/b/c");
}

#[test]
fn join_adds_no_separator_after_one_or_to_an_empty_base() {
    assert_eq!(join_path("/clusters/root/", "algebra1"), "/clusters/root/algebra1");
    assert_eq!(join_path("/", "x"), "/x");
    assert_eq!(join_path("", "x"), "x");
    assert_eq!(join_path("", ""), "");
}

#[test]
fn join_with_an_empty_segment_ends_in_a_separator() {
    assert_eq!(join_path("a", ""), "a/");
    assert_eq!(join_path("a/", ""), "a/");
}

#[test]
fn join_with_an_absolute_segment_gives_the_segment() {
    assert_eq!(join_path("/clusters/root", "/etc/passwd"), "/etc/passwd");
    assert_eq!(join_path("", "/"), "/");
}

#[test]
fn join_agrees_with_the_platform_on_slash_separated_paths() {
    let parts = ["", "/", "a", "a/", "/a", "/a/b", "a//b", "..", "./x", "hint.png", "é/ü"];
    for base in parts {
        for segment in parts {
            let expected = Path::new(base).join(segment);
            assert_eq!(
                join_path(base, segment),
                expected.to_str().expect("text").to_string(),
                "{base:?} joined with {segment:?}"
            );
        }
    }
}

#[test]
fn assignment_files_lie_below_cluster_node_and_id() {
    let n = node("math", "algebra1");
    assert_eq!(assignment_dir_of("/clusters/root", &n, "ex1"), "/clusters/root/algebra1/ex1");
    assert_eq!(
        content_path_of("/clusters/root", &n, "ex1"),
        "/clusters/root/algebra1/ex1/contents.html"
    );
    assert_eq!(
        attachment_path_of("/clusters/root", &n, "ex1", "img/hint.png"),
        "/clusters/root/algebra1/ex1/img/hint.png"
    );
}

#[test]
fn target_directories_are_namespaced() {
    let n = node("math", "algebra1");
    assert_eq!(content_target_dir_of(&n, "ex1"), "math/algebra1/assignments/ex1");
    assert_eq!(attachment_target_dir_of(&n, "ex1"), "math/algebra1/assignments/ex1/attachments");
    assert_eq!(content_target_dir_of(&node("", ""), ""), "//assignments/");
}

#[test]
fn remarks_name_the_node_by_namespace_and_local_id() {
    let n = node("math", "algebra1");
    assert_eq!(duplicate_ids_remark_of(&n), "Duplicate assignment IDs in node math__algebra1");
    assert_eq!(
        malformed_remark_of(&n, "invalid type: string, expected a sequence"),
        "Something went wrong while deserializing assignments in node math__algebra1: invalid type: string, expected a sequence"
    );
    assert_eq!(duplicate_ids_remark_of(&node("", "x")), "Duplicate assignment IDs in node __x");
}

#[test]
fn file_remarks_name_the_assignment_or_the_path() {
    let n = node("math", "algebra1");
    assert_eq!(
        missing_content_remark_of(&n, "ex1"),
        "Assignment ex1 associated with node algebra1 lacks a readable contents.html file."
    );
    assert_eq!(
        unreadable_attachment_remark_of("/r/algebra1/ex1/hint.png"),
        "Attachment cannot be read at /r/algebra1/ex1/hint.png"
    );
}

#[test]
fn one_optional_option_and_one_optional_field_are_declared() {
    let params = assignments_plugin::get_params_schema();
    assert_eq!(params.len(), 1);
    assert_eq!(params[0].name, "require_model_solutions");
    assert!(!params[0].required);
    let fields = assignments_plugin::get_extension_field_schema();
    assert_eq!(fields.len(), 1);
    assert_eq!(fields[0].name, "assignments");
    assert!(!fields[0].required);
}
