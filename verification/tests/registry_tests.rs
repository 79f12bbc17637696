use pv_bridge::errors::Error;
use pv_bridge::gateway::Policy;
use pv_bridge::registry::{Direction, Registry, VarDecl, Want};
use pv_bridge::value::{Value, VarKind};

fn decl(name: &str, kind: VarKind, direction: Direction, max_len: usize) -> VarDecl {
    VarDecl {
        name: name.as_bytes().to_vec(),
        kind,
        direction,
        max_len,
        policy: Policy::EveryUpdate,
    }
}

fn example_registry() -> Registry {
    let mut reg = Registry::new();
    reg.add(decl("example:ai", VarKind::F64, Direction::Input, 1));
    reg.add(decl("example:ao", VarKind::F64, Direction::Output, 1));
    reg.add(decl("example:aai", VarKind::I32Array, Direction::Input, 64));
    reg.add(decl("example:aao", VarKind::I32Array, Direction::Output, 64));
    reg
}

#[test]
fn take_var_claims_and_removes() {
    let mut reg = example_registry();
    let g = reg
        .take_var(b"example:ai", VarKind::F64, Direction::Input)
        .expect("declared variable");
    assert_eq!(g.max_len(), 1);
    assert_eq!(reg.len(), 3);
    // Ownership was taken: a second claim finds nothing.
    assert!(matches!(
        reg.take_var(b"example:ai", VarKind::F64, Direction::Input),
        Err(Error::MissingVariable)
    ));
}

#[test]
fn take_var_missing_name() {
    let mut reg = example_registry();
    assert!(matches!(
        reg.take_var(b"example:nope", VarKind::F64, Direction::Input),
        Err(Error::MissingVariable)
    ));
    assert_eq!(reg.len(), 4);
}

#[test]
fn take_var_wrong_kind_or_direction() {
    let mut reg = example_registry();
    assert!(matches!(
        reg.take_var(b"example:ai", VarKind::U16, Direction::Input),
        Err(Error::WrongType)
    ));
    assert!(matches!(
        reg.take_var(b"example:ai", VarKind::F64, Direction::Output),
        Err(Error::WrongType)
    ));
    // The refused declaration stays claimable.
    assert!(reg
        .take_var(b"example:ai", VarKind::F64, Direction::Input)
        .is_ok());
}

#[test]
fn claimed_gateway_carries_declared_capacity() {
    let mut reg = example_registry();
    let mut g = reg
        .take_var(b"example:aai", VarKind::I32Array, Direction::Input)
        .expect("declared variable");
    assert_eq!(g.max_len(), 64);
    assert_eq!(g.write(Value::I32Array(vec![0; 64])), Ok(()));
    assert_eq!(
        g.write(Value::I32Array(vec![0; 65])),
        Err(Error::CapacityExceeded)
    );
}

#[test]
fn take_all_resolves_every_requirement() {
    let mut reg = example_registry();
    let wants = vec![
        Want {
            name: b"example:aao".to_vec(),
            kind: VarKind::I32Array,
            direction: Direction::Output,
        },
        Want {
            name: b"example:ai".to_vec(),
            kind: VarKind::F64,
            direction: Direction::Input,
        },
    ];
    let gws = reg.take_all(&wants).expect("all declared");
    assert_eq!(gws.len(), 2);
    assert_eq!(gws[0].max_len(), 64);
    assert_eq!(gws[1].max_len(), 1);
    assert_eq!(reg.len(), 2);
    assert!(!reg.is_empty());
}

#[test]
fn take_all_fails_loudly_on_first_problem() {
    let mut reg = example_registry();
    let wants = vec![
        Want {
            name: b"example:ai".to_vec(),
            kind: VarKind::F64,
            direction: Direction::Input,
        },
        Want {
            name: b"example:longin".to_vec(),
            kind: VarKind::I32,
            direction: Direction::Input,
        },
    ];
    assert!(matches!(reg.take_all(&wants), Err(Error::MissingVariable)));

    let mut reg = example_registry();
    let wants = vec![Want {
        name: b"example:ao".to_vec(),
        kind: VarKind::U32,
        direction: Direction::Output,
    }];
    assert!(matches!(reg.take_all(&wants), Err(Error::WrongType)));
}

#[test]
fn startup_ends_with_empty_registry() {
    let mut reg = example_registry();
    let wants: Vec<Want> = [
        ("example:ai", VarKind::F64, Direction::Input),
        ("example:ao", VarKind::F64, Direction::Output),
        ("example:aai", VarKind::I32Array, Direction::Input),
        ("example:aao", VarKind::I32Array, Direction::Output),
    ]
    .iter()
    .map(|(n, k, d)| Want {
        name: n.as_bytes().to_vec(),
        kind: *k,
        direction: *d,
    })
    .collect();
    let gws = reg.take_all(&wants).expect("all declared");
    assert_eq!(gws.len(), 4);
    assert!(reg.is_empty());
}
