use rustpeer::codegen::{filter_by_namespace, has_namespace_markers, header_order, is_header_path};
use rustpeer::text::{find_from, matches_at};
use rustpeer::util::{tag_from_thread_name, thd_name};

#[test]
fn find_from_finds_first_occurrence() {
    let hay = b"abcabcab";
    assert_eq!(find_from(hay, b"ab", 0), Some(0));
    assert_eq!(find_from(hay, b"ab", 1), Some(3));
    assert_eq!(find_from(hay, b"ab", 7), None);
    assert_eq!(find_from(hay, b"cab", 0), Some(2));
    assert_eq!(find_from(hay, b"abd", 0), None);
    assert_eq!(find_from(hay, b"", 5), Some(5));
    assert_eq!(find_from(b"ab", b"abc", 0), None);
    assert!(matches_at(hay, b"bca", 1));
    assert!(!matches_at(hay, b"bca", 2));
}

const BINDINGS: &str = "/* automatically generated */\n\
#[allow(non_snake_case)]\n\
pub mod root {\n    #[allow(unused_imports)]\n    use self::super::root;\n    pub mod std {\n    }\n    pub mod FFI {\n        pub type X = u32;\n    }\n    pub mod other {\n    }\n}\n";

#[test]
fn filter_keeps_root_and_ffi_module() {
    let b = BINDINGS.as_bytes();
    assert!(has_namespace_markers(b));
    let out = String::from_utf8(filter_by_namespace(b)).unwrap();
    assert_eq!(
        out,
        "/* automatically generated */\n#[allow(non_snake_case)]\npub mod root {\n    pub mod FFI {\n        pub type X = u32;\n    }\n}\n"
    );
}

#[test]
fn filter_of_ffi_only_bindings_is_unchanged() {
    let text = "pub mod root {\n    pub mod FFI {\n        pub type X = u32;\n    }\n}\n";
    let out = String::from_utf8(filter_by_namespace(text.as_bytes())).unwrap();
    assert_eq!(out, text);
}

#[test]
fn markers_must_be_present() {
    assert!(!has_namespace_markers(b""));
    assert!(!has_namespace_markers(b"pub mod root {\n"));
    assert!(!has_namespace_markers(b"    pub mod FFI {\n    }"));
    assert!(!has_namespace_markers(b"pub mod root {\n    pub mod FFI {\n"));
    // The closing must come after the opening of the FFI module.
    assert!(!has_namespace_markers(b"pub mod root {\n\n    }    pub mod FFI {\n"));
    assert!(has_namespace_markers(b"pub mod root {\n    pub mod FFI {\n\n    }"));
}

#[test]
fn header_paths() {
    assert!(is_header_path(b"a/b/ffi.h"));
    assert!(is_header_path(b".h"));
    assert!(!is_header_path(b"h"));
    assert!(!is_header_path(b""));
    assert!(!is_header_path(b"a/b/ffi.hpp"));
    assert!(!is_header_path(b"a/b/ffi.c"));
}

#[test]
fn thread_tags() {
    assert_eq!(tag_from_thread_name(b"main"), None);
    assert_eq!(tag_from_thread_name(b""), None);
    assert_eq!(tag_from_thread_name(b"a::b"), Some(b"b".to_vec()));
    assert_eq!(tag_from_thread_name(b"a::b::c"), Some(b"c".to_vec()));
    assert_eq!(tag_from_thread_name(b"a::"), Some(b"".to_vec()));
    assert_eq!(tag_from_thread_name(b"a:::b"), Some(b":b".to_vec()));
    assert_eq!(tag_from_thread_name(b"a::::b"), Some(b"b".to_vec()));
    assert_eq!(tag_from_thread_name(b"a:b"), None);
}

#[test]
fn thread_names_inherit_the_tag() {
    assert_eq!(thd_name(b"worker", Some(b"pool::t1")), b"worker::t1".to_vec());
    assert_eq!(thd_name(b"worker", Some(b"main")), b"worker".to_vec());
    assert_eq!(thd_name(b"worker", None), b"worker".to_vec());
    let inner = thd_name(b"sub", Some(&thd_name(b"worker", Some(b"pool::t1"))));
    assert_eq!(inner, b"sub::t1".to_vec());
    assert_eq!(tag_from_thread_name(&inner), Some(b"t1".to_vec()));
}

#[test]
fn filtering_twice_is_filtering_once() {
    let once = filter_by_namespace(BINDINGS.as_bytes());
    assert!(has_namespace_markers(&once));
    let twice = filter_by_namespace(&once);
    assert_eq!(twice, once);
}

#[test]
fn header_order_sorts_headers() {
    let paths: Vec<Vec<u8>> = vec![
        b"dir/b.h".to_vec(),
        b"dir/readme.md".to_vec(),
        b"dir/a.h".to_vec(),
        b"dir/a.hpp".to_vec(),
        b"dir/sub/c.h".to_vec(),
        b"dir/a.h".to_vec(),
        b"dir/B.h".to_vec(),
    ];
    assert_eq!(header_order(&paths), vec![6, 2, 5, 0, 4]);
    assert_eq!(header_order(&vec![]), Vec::<usize>::new());
    assert_eq!(header_order(&vec![b"x.c".to_vec()]), Vec::<usize>::new());
    assert_eq!(header_order(&vec![b"ab.h".to_vec(), b"a.h".to_vec()]), vec![1, 0]);
}

#[test]
fn header_order_does_not_depend_on_walk_order() {
    let walk1: Vec<Vec<u8>> = vec![
        b"d/sub/c.h".to_vec(),
        b"d/b.h".to_vec(),
        b"d/notes.txt".to_vec(),
        b"d/a.h".to_vec(),
    ];
    let walk2: Vec<Vec<u8>> = vec![b"d/a.h".to_vec(), b"d/b.h".to_vec(), b"d/sub/c.h".to_vec()];
    let list = |paths: &Vec<Vec<u8>>| -> Vec<Vec<u8>> {
        header_order(paths).into_iter().map(|i| paths[i].clone()).collect()
    };
    let expected = vec![b"d/a.h".to_vec(), b"d/b.h".to_vec(), b"d/sub/c.h".to_vec()];
    assert_eq!(list(&walk1), expected);
    assert_eq!(list(&walk2), expected);
}
