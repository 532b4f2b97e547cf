use orm::validators::{schemas_by_name, BaseType, Field, Rule, ValidatorSchema};

fn leak<T>(value: T) -> &'static T {
    Box::leak(Box::new(value))
}

fn schema(name: &'static str) -> &'static ValidatorSchema {
    let fields: &'static [Field] = Box::leak(
        vec![Field {
            name: "email",
            base: BaseType::String,
            rules: Box::leak(vec![Rule::Email, Rule::MaxLength(254)].into_boxed_slice()),
            optional: false,
            array: false,
        }]
        .into_boxed_slice(),
    );
    leak(ValidatorSchema { name, fields })
}

#[test]
fn schemas_are_written_in_name_order() {
    let user = schema("UserInsert");
    let gadget = schema("GadgetUpdate");
    let gadget_again = schema("GadgetUpdate");
    let api = schema("ApiLogin");
    let sorted = schemas_by_name(&vec![user, gadget, api, gadget_again]);
    let names: Vec<&str> = sorted.iter().map(|s| s.name).collect();
    assert_eq!(names, vec!["ApiLogin", "GadgetUpdate", "GadgetUpdate", "UserInsert"]);
    assert!(std::ptr::eq(sorted[1], gadget) && std::ptr::eq(sorted[2], gadget_again));
    assert!(schemas_by_name(&Vec::new()).is_empty());
}
