use arceos::tuple_for_each::{tuple_for_each, FieldAttrs, ForEachError, TupleFields};

trait Base {
    fn foo(&self) -> u32;
    fn bar(&self);
}

struct A;
struct B;

impl Base for A {
    fn foo(&self) -> u32 {
        1
    }
    fn bar(&self) {
        println!("I'am A")
    }
}

impl Base for B {
    fn foo(&self) -> u32 {
        2
    }
    fn bar(&self) {
        println!("I'am B")
    }
}

struct Tuple(A, B);

impl Tuple {
    fn layout() -> TupleFields {
        // `struct Tuple(A, B)` under `#[tuple_for_each(Base)]`: two fields, no `cfg`
        let fields = vec![FieldAttrs { paths: vec![] }, FieldAttrs { paths: vec![] }];
        let plan = tuple_for_each(true, false, &fields).unwrap();
        TupleFields::new(plan.iter().map(|f| f.cfg_attrs.is_empty()).collect())
    }

    fn len(&self) -> usize {
        Self::layout().len()
    }

    fn for_each<F: Fn(&dyn Base)>(&self, f: F) {
        for i in Self::layout().for_each_order() {
            match i {
                0 => f(&self.0),
                _ => f(&self.1),
            }
        }
    }
}

#[test]
fn test_tuple_for_each() {
    let t = Tuple(A, B);
    assert_eq!(t.len(), 2);
    t.for_each(|x| {
        println!("{}: ", x.foo());
        x.bar();
    });
}

#[test]
fn refuses_non_structs_first() {
    assert_eq!(tuple_for_each(false, true, &vec![]).unwrap_err(), ForEachError::NotStruct);
    assert_eq!(
        ForEachError::NotStruct.message(),
        "attribute `tuple_for_each` can only be attached to tuple structs"
    );
}

#[test]
fn refuses_structs_with_named_fields() {
    // `struct S { a: A }` is a struct, but not a tuple struct
    let fields = vec![FieldAttrs { paths: vec![] }];
    assert_eq!(tuple_for_each(false, false, &fields).unwrap_err(), ForEachError::NotStruct);
}

#[test]
fn refuses_missing_base() {
    assert_eq!(tuple_for_each(true, true, &vec![]).unwrap_err(), ForEachError::MissingBase);
    assert_eq!(
        ForEachError::MissingBase.message(),
        "expect a base trait in attribute `tuple_for_each`: e.g. #[tuple_for_each(BaseTrait)]"
    );
}

#[test]
fn keeps_cfg_attributes_only() {
    let fields = vec![
        FieldAttrs { paths: vec![Some(b"doc".to_vec()), Some(b"cfg".to_vec()), None, Some(b"cfg".to_vec())] },
        FieldAttrs { paths: vec![Some(b"cfg_attr".to_vec())] },
    ];
    let plan = tuple_for_each(true, false, &fields).unwrap();
    assert_eq!(plan.len(), 2);
    assert_eq!(plan[0].index, 0);
    assert_eq!(plan[0].cfg_attrs, vec![1, 3]);
    assert_eq!(plan[1].index, 1);
    assert!(plan[1].cfg_attrs.is_empty());
}

#[test]
fn len_counts_fields_compiled_in() {
    let t = TupleFields::new(vec![true, false, true]);
    assert_eq!(t.len(), 2);
    assert!(!t.is_empty());
    assert_eq!(t.for_each_order(), vec![0, 2]);
    assert!(TupleFields::new(vec![false]).is_empty());
    assert!(TupleFields::new(vec![]).is_empty());
}
