//! Validation of tool templates before they are accepted into the custom
//! catalog.
use vstd::prelude::*;
use crate::types::CliToolTemplate;
use crate::text::{str_contains_char, str_eq};

verus! {

/// The accepted version parser modes.
pub open spec fn valid_version_parser(p: Seq<char>) -> bool {
    p == "stdout"@ || p == "stderr"@ || p == "stdout-first-line"@
}

/// The first problem a template has, with its exact report; `None` for a
/// well-formed template.
pub open spec fn template_issue(t: CliToolTemplate) -> Option<Seq<char>> {
    if t.id@.len() == 0 {
        Some("Template ID cannot be empty"@)
    } else if t.name@.len() == 0 {
        Some("Template name cannot be empty"@)
    } else if t.executable@.len() == 0 {
        Some("Executable cannot be empty"@)
    } else if t.executable@.contains('/') || t.executable@.contains('\\') {
        Some("Executable should be a command name, not a path"@)
    } else if !valid_version_parser(t.version_parser@) {
        Some("version_parser must be 'stdout', 'stderr', or 'stdout-first-line'"@)
    } else if exists|i: int|
        0 <= i < t.config_files@.len() && (#[trigger] t.config_files@[i]).path@.len() == 0 {
        Some("Config file path cannot be empty"@)
    } else if exists|i: int|
        0 <= i < crate::types::spec_deps(t).len() && (#[trigger] crate::types::spec_deps(t)[i]).len()
            == 0 {
        Some("Dependency ID cannot be empty"@)
    } else {
        None
    }
}

/// Validate that a template is well-formed: returns exactly the first
/// problem found, or nothing.
pub fn validate_template(template: &CliToolTemplate) -> (r: Result<(), String>)
    ensures
        match r {
            Ok(()) => template_issue(*template) is None,
            Err(m) => template_issue(*template) == Some(m@),
        },
{
    if template.id.as_str().is_empty() {
        return Err("Template ID cannot be empty".to_owned());
    }
    if template.name.as_str().is_empty() {
        return Err("Template name cannot be empty".to_owned());
    }
    if template.executable.as_str().is_empty() {
        return Err("Executable cannot be empty".to_owned());
    }
    if str_contains_char(template.executable.as_str(), '/') || str_contains_char(
        template.executable.as_str(),
        '\\',
    ) {
        return Err("Executable should be a command name, not a path".to_owned());
    }
    let parser_ok = str_eq(template.version_parser.as_str(), "stdout")
        || str_eq(template.version_parser.as_str(), "stderr")
        || str_eq(template.version_parser.as_str(), "stdout-first-line");
    if !parser_ok {
        return Err(
            "version_parser must be 'stdout', 'stderr', or 'stdout-first-line'".to_owned(),
        );
    }
    let cfl = template.config_files.len();
    for i in 0..cfl
        invariant
            cfl == template.config_files@.len(),
            template.id@.len() != 0,
            template.name@.len() != 0,
            template.executable@.len() != 0,
            !template.executable@.contains('/'),
            !template.executable@.contains('\\'),
            valid_version_parser(template.version_parser@),
            forall|j: int|
                0 <= j < i ==> (#[trigger] template.config_files@[j]).path@.len() != 0,
    {
        if template.config_files[i].path.as_str().is_empty() {
            assert(template.config_files@[i as int].path@.len() == 0);
            return Err("Config file path cannot be empty".to_owned());
        }
    }
    match &template.dependencies {
        Some(deps) => {
            let dl = deps.len();
            for i in 0..dl
                invariant
                    dl == deps@.len(),
                    crate::types::spec_deps(*template) == deps.deep_view(),
                    template.id@.len() != 0,
                    template.name@.len() != 0,
                    template.executable@.len() != 0,
                    !template.executable@.contains('/'),
                    !template.executable@.contains('\\'),
                    valid_version_parser(template.version_parser@),
                    forall|j: int|
                        0 <= j < template.config_files@.len() ==> (
                        #[trigger] template.config_files@[j]).path@.len() != 0,
                    forall|j: int|
                        0 <= j < i ==> (#[trigger] deps.deep_view()[j]).len() != 0,
            {
                if deps[i].as_str().is_empty() {
                    assert(crate::types::spec_deps(*template)[i as int].len() == 0);
                    return Err("Dependency ID cannot be empty".to_owned());
                }
            }
        },
        None => {
            proof {
                assert(crate::types::spec_deps(*template) =~= Seq::<Seq<char>>::empty());
            }
        },
    }
    Ok(())
}

} // verus!
