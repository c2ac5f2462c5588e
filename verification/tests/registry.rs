use sayjp::registry::TTSModelHolder;
use sayjp::{EngineError, TTSIdent};

#[test]
fn ident_keeps_its_text() {
    let id = TTSIdent::new("voice");
    assert_eq!(id.as_str(), "voice");
    assert_eq!(id.to_string(), "voice");
    assert!(id == TTSIdent::new("voice"));
    assert!(id != TTSIdent::new("other"));
    assert!(id.duplicate() == id);
}

#[test]
fn load_then_find_returns_the_model() {
    let mut holder: TTSModelHolder<u32> = TTSModelHolder::new();
    let r: Result<(), String> = holder.load(TTSIdent::new("voice"), || Ok(7));
    assert!(r.is_ok());
    assert_eq!(holder.len(), 1);
    match holder.find_model(&TTSIdent::new("voice")) {
        Ok(m) => assert_eq!(*m, 7),
        Err(_) => panic!("model must be found"),
    }
}

#[test]
fn load_is_idempotent_and_does_not_build_again() {
    let mut holder: TTSModelHolder<u32> = TTSModelHolder::new();
    let _: Result<(), String> = holder.load(TTSIdent::new("voice"), || Ok(1));
    let mut called = false;
    let r: Result<(), String> = holder.load(TTSIdent::new("voice"), || {
        called = true;
        Err("must not be built".to_string())
    });
    assert!(r.is_ok());
    assert!(!called);
    assert_eq!(holder.len(), 1);
    assert_eq!(*holder.find_model(&TTSIdent::new("voice")).ok().unwrap(), 1);
}

#[test]
fn failed_build_registers_nothing() {
    let mut holder: TTSModelHolder<u32> = TTSModelHolder::new();
    let r: Result<(), String> = holder.load(TTSIdent::new("voice"), || Err("bad bytes".to_string()));
    assert_eq!(r, Err("bad bytes".to_string()));
    assert_eq!(holder.len(), 0);
    assert!(holder.position(&TTSIdent::new("voice")).is_none());
}

#[test]
fn missing_model_names_the_identifier() {
    let mut holder: TTSModelHolder<u32> = TTSModelHolder::new();
    let _: Result<(), String> = holder.load(TTSIdent::new("a"), || Ok(1));
    match holder.find_model(&TTSIdent::new("b")) {
        Err(EngineError::ModelNotFound(name)) => assert_eq!(name, "b"),
        _ => panic!("expected ModelNotFound"),
    }
}

#[test]
fn find_model_allows_update_in_place() {
    let mut holder: TTSModelHolder<u32> = TTSModelHolder::new();
    let _: Result<(), String> = holder.load(TTSIdent::new("a"), || Ok(1));
    let _: Result<(), String> = holder.load(TTSIdent::new("b"), || Ok(2));
    *holder.find_model(&TTSIdent::new("b")).ok().unwrap() = 20;
    assert_eq!(*holder.find_model(&TTSIdent::new("a")).ok().unwrap(), 1);
    assert_eq!(*holder.find_model(&TTSIdent::new("b")).ok().unwrap(), 20);
    assert_eq!(holder.position(&TTSIdent::new("b")), Some(1));
}
