//! The Insert/Update values of a table must enforce the table's validation
//! rules: `name` between 3 and 30 characters, `contact` an e-mail address
//! when present.

use chrono::{DateTime, Utc};
use orm::validate::{email_ok, length_ok, Validate};
use uuid::Uuid;
use validator::{ValidationError, ValidationErrors};

pub struct GadgetInsert {
    pub id: Option<Uuid>,
    pub name: String,
    pub contact: Option<String>,
    pub created_at: Option<DateTime<Utc>>,
}

pub struct GadgetUpdate {
    pub name: Option<String>,
    pub contact: Option<String>,
}

fn check_name(errors: &mut ValidationErrors, name: &str) {
    if !length_ok(name, Some(3), Some(30), None) {
        errors.add("name", ValidationError::new("length"));
    }
}

fn check_contact(errors: &mut ValidationErrors, contact: &str) {
    if !email_ok(contact) {
        errors.add("contact", ValidationError::new("email"));
    }
}

fn finish(errors: ValidationErrors) -> Result<(), ValidationErrors> {
    if errors.is_empty() { Ok(()) } else { Err(errors) }
}

impl Validate for GadgetInsert {
    fn validate(&self) -> Result<(), ValidationErrors> {
        let mut errors = ValidationErrors::new();
        check_name(&mut errors, &self.name);
        if let Some(contact) = &self.contact {
            check_contact(&mut errors, contact);
        }
        finish(errors)
    }
}

impl Validate for GadgetUpdate {
    fn validate(&self) -> Result<(), ValidationErrors> {
        let mut errors = ValidationErrors::new();
        if let Some(name) = &self.name {
            check_name(&mut errors, name);
        }
        if let Some(contact) = &self.contact {
            check_contact(&mut errors, contact);
        }
        finish(errors)
    }
}

#[test]
fn insert_enforces_the_table_rules() {
    let bad = GadgetInsert { id: None, name: "ab".into(), contact: None, created_at: None };
    assert!(bad.validate().is_err());

    let good = GadgetInsert { id: None, name: "abc".into(), contact: None, created_at: None };
    assert!(good.validate().is_ok());
}

#[test]
fn insert_checks_optional_fields_only_when_present() {
    let bad = GadgetInsert {
        id: None,
        name: "abc".into(),
        contact: Some("not-an-email".into()),
        created_at: None,
    };
    assert!(bad.validate().is_err());
}

#[test]
fn update_checks_only_provided_fields() {
    let empty = GadgetUpdate { name: None, contact: None };
    assert!(empty.validate().is_ok());

    let bad = GadgetUpdate { name: Some("ab".into()), contact: None };
    assert!(bad.validate().is_err());
}
