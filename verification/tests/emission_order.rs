use topstitch::emission::{emission_order, DuplicateModuleName};
use topstitch::io::IO;
use topstitch::validation::{Design, ModuleDef, Usage};

fn module(usage: Usage, instances: Vec<usize>) -> ModuleDef {
    ModuleDef {
        usage,
        ports: vec![IO::Input(1)],
        instances,
        unused: vec![],
        tieoffs: vec![],
        assignments: vec![],
        inst_connections: vec![],
    }
}

fn names(v: &[&str]) -> Vec<String> {
    v.iter().map(|s| s.to_string()).collect()
}

#[test]
fn definitions_come_before_their_users_and_once_each() {
    let d = Design {
        modules: vec![
            module(Usage::EmitDefinitionAndDescend, vec![]),
            module(Usage::EmitStubAndStop, vec![0]),
            module(Usage::EmitNothingAndStop, vec![]),
            module(Usage::EmitDefinitionAndDescend, vec![0, 1, 0, 2]),
        ],
    };
    let n = names(&["leaf", "stub", "ext", "top"]);
    assert_eq!(emission_order(&d, &n, 3), Ok(vec![0, 1, 3]));
    assert_eq!(emission_order(&d, &n, 1), Ok(vec![1]));
    assert_eq!(emission_order(&d, &n, 2), Ok(vec![]));
}

#[test]
fn two_modules_with_one_name_are_refused() {
    let d = Design {
        modules: vec![
            module(Usage::EmitDefinitionAndDescend, vec![]),
            module(Usage::EmitDefinitionAndDescend, vec![]),
            module(Usage::EmitDefinitionAndDescend, vec![0, 1]),
        ],
    };
    assert_eq!(
        emission_order(&d, &names(&["a", "a", "top"]), 2),
        Err(DuplicateModuleName { name: "a".to_string() })
    );
    let d = Design {
        modules: vec![
            module(Usage::EmitDefinitionAndDescend, vec![]),
            module(Usage::EmitDefinitionAndStop, vec![]),
            module(Usage::EmitDefinitionAndDescend, vec![0, 1]),
        ],
    };
    assert_eq!(emission_order(&d, &names(&["a", "a", "top"]), 2), Ok(vec![0, 2]));
}
