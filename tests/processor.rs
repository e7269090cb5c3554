use glsl_lang_pp::parser::{ParsedPath, PathType, ProcessStrError};
use glsl_lang_pp::processor::{
    Define, DefineFunction, DefineObject, Definition, ExtensionBehavior, ExtensionName, FileId,
    ProcessorState, ProcessorStateBuilder, Registry,
};

fn assert_send<T: Send>() {}

#[test]
fn test_error_send() {
    assert_send::<ProcessStrError>();
}

fn has(state: &ProcessorState, name: &str) -> bool {
    state.get_definition(&name.to_string()).is_some()
}

#[test]
fn default_state_has_builtins() {
    let state = ProcessorState::default();
    for name in [
        "GL_core_profile",
        "__LINE__",
        "__FILE__",
        "__VERSION__",
        "GL_ARB_shading_language_include",
        "GL_GOOGLE_include_directive",
        "GL_GOOGLE_cpp_style_line_directive",
    ] {
        assert!(has(&state, name), "{}", name);
        assert!(state.get_definition(&name.to_string()).unwrap().protected());
    }
    assert!(!has(&state, "GL_es_profile"));
    assert!(!has(&state, "GL_compatibility_profile"));
    assert!(!state.cpp_style_line());
    assert_eq!(state.version().number, 110);
    assert_eq!(
        state.get_definition(&"__LINE__".to_string()),
        Some(&Definition::Line)
    );
}

#[test]
fn protected_redefinition_refused() {
    let mut state = ProcessorState::default();
    let before = format!("{:?}", state);
    let d = Define::object("GL_core_profile".to_string(), DefineObject::one(), false);
    assert!(!state.definition(d, FileId::new(3)));
    assert_eq!(format!("{:?}", state), before);
    let d = Define::object("__LINE__".to_string(), DefineObject::one(), false);
    assert!(!state.definition(d, FileId::new(3)));
    assert_eq!(format!("{:?}", state), before);
}

#[test]
fn plain_definition_and_redefinition() {
    let mut state = ProcessorState::default();
    let d = Define::object("X".to_string(), DefineObject::one(), false);
    assert!(state.definition(d.clone(), FileId::new(1)));
    assert_eq!(
        state.get_definition(&"X".to_string()),
        Some(&Definition::Regular(d, FileId::new(1)))
    );
    let f = Define::function(
        "X".to_string(),
        DefineFunction { parameters: vec!["a".to_string()], tokens: vec![], variadic: false },
        true,
    );
    assert!(state.definition(f.clone(), FileId::new(2)));
    assert_eq!(
        state.get_definition(&"X".to_string()),
        Some(&Definition::Regular(f, FileId::new(2)))
    );
    let again = Define::object("X".to_string(), DefineObject::one(), false);
    assert!(!state.definition(again, FileId::new(2)));
}

#[test]
fn builder_profiles_and_registry() {
    let mut reg = Registry::new();
    reg.add("GL_EXT_example".to_string());
    let state = ProcessorStateBuilder::new(&reg)
        .core_profile(false)
        .compatibility_profile(true)
        .es_profile(true)
        .extension(ExtensionName::Specific("GL_EXT_example".to_string()), ExtensionBehavior::Enable)
        .extension(ExtensionName::All, ExtensionBehavior::Warn)
        .finish();
    assert!(!has(&state, "GL_core_profile"));
    assert!(has(&state, "GL_compatibility_profile"));
    assert!(has(&state, "GL_es_profile"));
    assert!(has(&state, "GL_EXT_example"));
    assert!(!has(&state, "GL_GOOGLE_include_directive"));
    assert_eq!(reg.all().len(), 1);
    assert_eq!(Registry::default_registry().all().len(), 3);
}

#[test]
fn builder_user_definitions_later_wins() {
    let first = Define::object("Y".to_string(), DefineObject::one(), false);
    let second = Define::object("Y".to_string(), DefineObject { tokens: vec![] }, false);
    let line = Define::object("__LINE__".to_string(), DefineObject::one(), false);
    let reg = Registry::new();
    let state = ProcessorState::builder()
        .registry(&reg)
        .definition(first)
        .definition(second.clone())
        .definition(line)
        .finish();
    assert_eq!(
        state.get_definition(&"Y".to_string()),
        Some(&Definition::Regular(second, FileId::new(0)))
    );
    assert_eq!(
        state.get_definition(&"__LINE__".to_string()),
        Some(&Definition::Line)
    );
    assert!(has(&state, "GL_core_profile"));
}

#[test]
fn definition_names() {
    assert_eq!(Definition::File.name(), "__FILE__");
    assert_eq!(Definition::Version.name(), "__VERSION__");
    let d = Define::object("Z".to_string(), DefineObject::one(), true);
    assert_eq!(Definition::Regular(d, FileId::new(0)).name(), "Z");
    assert_eq!(DefineObject::one().tokens[0].text, "1");
}

#[test]
fn process_str_error_message() {
    let e = ProcessStrError::ImportRequested(ParsedPath {
        path: "a.glsl".to_string(),
        ty: PathType::Quote,
    });
    assert_eq!(e.message(), "an import was requested without a filesystem context");
}

#[test]
fn extension_stack_kept_by_finish_and_pushed() {
    let mut state = ProcessorStateBuilder::default()
        .extension(ExtensionName::Specific("GL_EXT_a".to_string()), ExtensionBehavior::Enable)
        .extension(ExtensionName::All, ExtensionBehavior::Warn)
        .finish();
    assert_eq!(
        state.extensions(),
        &vec![
            (ExtensionName::Specific("GL_EXT_a".to_string()), ExtensionBehavior::Enable),
            (ExtensionName::All, ExtensionBehavior::Warn),
        ]
    );
    state.push_extension(ExtensionName::All, ExtensionBehavior::Disable);
    assert_eq!(state.extensions().len(), 3);
    assert!(ProcessorState::default().extensions().is_empty());
}
