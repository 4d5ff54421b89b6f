use aftermath::class_loader::ClassLoader;

#[test]
fn finds_classes_by_name() {
    let mut loader = ClassLoader::new();
    loader.add_archive(
        "java.base.jmod".to_string(),
        &vec![
            "classes/java/lang/Object.class".to_string(),
            "classes/module-info.class".to_string(),
            "lib/libjava.so".to_string(),
            "a.class".to_string(),
        ],
    );
    loader.add_archive(
        "java.sql.jmod".to_string(),
        &vec!["classes/java/sql/Date.class".to_string()],
    );
    assert_eq!(loader.find_class("java/lang/Object"), Some("java.base.jmod"));
    assert_eq!(loader.find_class("java/sql/Date"), Some("java.sql.jmod"));
    assert_eq!(loader.find_class("module-info"), Some("java.base.jmod"));
    assert_eq!(loader.find_class("lib/libjava"), None);
    assert_eq!(loader.find_class("java/lang/String"), None);
    assert_eq!(loader.archives.len(), 2);
}

#[test]
fn later_archive_wins() {
    let mut loader = ClassLoader::new();
    loader.add_archive("first".to_string(), &vec!["classes/p/A.class".to_string()]);
    loader.add_archive("second".to_string(), &vec!["classes/p/A.class".to_string()]);
    assert_eq!(loader.find_class("p/A"), Some("second"));
}
