use bills_api::config::{parse_unsigned, AppConfig, PostgresConfig, RabbitMqConfig};
use bills_api::create::{contains_text, is_unique_violation};
use bills_api::errors::{add_error, snake_to_camel, AppError, FieldErrors};

fn vars(pairs: &[(&str, &str)]) -> Vec<(String, String)> {
    pairs.iter().map(|(k, v)| (k.to_string(), v.to_string())).collect()
}

#[test]
fn validation_single_has_one_message() {
    match AppError::validation_single("request", "Invalid JSON payload.") {
        AppError::Validation(e) => {
            assert_eq!(e.issues.len(), 1);
            assert_eq!(e.messages_for("request"), vec!["Invalid JSON payload.".to_string()]);
        }
        other => panic!("unexpected {:?}", other),
    }
}

#[test]
fn error_responses() {
    let v = AppError::validation_single("tax", "Tax cannot be negative.");
    assert_eq!(v.status(), 400);
    assert_eq!(v.title(), "Validation failed");
    assert!(v.field_errors().is_some());
    let c = AppError::Conflict("taken".to_string());
    assert_eq!((c.status(), c.title()), (409, "taken".to_string()));
    assert!(c.field_errors().is_none());
    let m = AppError::Messaging("nack".to_string());
    assert_eq!((m.status(), m.title()), (503, "Message broker error: nack".to_string()));
    let i = AppError::Infrastructure("password=SECRET-REDACTED".to_string());
    assert_eq!((i.status(), i.title()), (500, "An unexpected error occurred.".to_string()));
}

#[test]
fn field_errors_keep_order_per_field() {
    let mut e = FieldErrors::new();
    assert!(e.is_empty());
    add_error(&mut e, "lines.concept", "first");
    add_error(&mut e, "tax", "other");
    add_error(&mut e, "lines.concept", "second");
    assert_eq!(e.messages_for("lines.concept"), vec!["first".to_string(), "second".to_string()]);
    assert!(e.messages_for("currency").is_empty());
    let mut f = FieldErrors::new();
    add_error(&mut f, "currency", "x");
    e.merge(&f);
    assert_eq!(e.issues.len(), 4);
    assert_eq!(e.issues[3].field, "currency");
}

#[test]
fn snake_case_to_camel_case() {
    assert_eq!(snake_to_camel("unit_amount"), "unitAmount");
    assert_eq!(snake_to_camel("bill_number"), "billNumber");
    assert_eq!(snake_to_camel("lines"), "lines");
    assert_eq!(snake_to_camel("a__b_1x"), "aB1x");
    assert_eq!(snake_to_camel("trailing_"), "trailing");
    assert_eq!(snake_to_camel(""), "");
}

#[test]
fn unique_violation_messages() {
    assert!(is_unique_violation("ERROR: duplicate key value violates unique constraint"));
    assert!(is_unique_violation("unique"));
    assert!(!is_unique_violation("Unique"));
    assert!(!is_unique_violation("timeout"));
    assert!(contains_text("abc", ""));
    assert!(!contains_text("", "a"));
    assert!(contains_text("xxabcx", "abc"));
}

#[test]
fn parse_numbers() {
    assert_eq!(parse_unsigned("8081", 65535), Some(8081));
    assert_eq!(parse_unsigned("+12", 65535), Some(12));
    assert_eq!(parse_unsigned("65535", 65535), Some(65535));
    assert_eq!(parse_unsigned("65536", 65535), None);
    assert_eq!(parse_unsigned("", 65535), None);
    assert_eq!(parse_unsigned("+", 65535), None);
    assert_eq!(parse_unsigned("-1", 65535), None);
    assert_eq!(parse_unsigned("1a", 65535), None);
    assert_eq!(parse_unsigned("4294967295", u32::MAX), Some(u32::MAX));
    assert_eq!(parse_unsigned("4294967296", u32::MAX), None);
}

#[test]
fn config_defaults() {
    let c = AppConfig::from_env(&vec![]);
    assert_eq!(c.port, 8080);
    assert_eq!(c.postgres.host, "localhost");
    assert_eq!(c.postgres.port, 5440);
    assert_eq!(c.postgres.db, "api_lang_arena");
    assert_eq!(c.postgres.max_pool_size, 6);
    assert_eq!(c.postgres.min_idle, 1);
    assert_eq!(c.rabbitmq.port, 5672);
    assert_eq!(c.rabbitmq.vhost, "/");
    assert_eq!(c.rabbitmq.bill_created_queue, "bill-created");
}

#[test]
fn config_overrides() {
    let c = AppConfig::from_env(&vars(&[
        ("PORT", "9000"),
        ("POSTGRES_PORT", "not-a-port"),
        ("RUST_DB_MAX_POOL_SIZE", "20"),
        ("RABBITMQ_HOST", "broker"),
        ("RABBITMQ_PORT", "70000"),
        ("PORT", "9001"),
    ]));
    assert_eq!(c.port, 9000);
    assert_eq!(c.postgres.port, 5440);
    assert_eq!(c.postgres.max_pool_size, 20);
    assert_eq!(c.rabbitmq.host, "broker");
    assert_eq!(c.rabbitmq.port, 5672);
}

#[test]
fn database_url_encodes_credentials() {
    let p = PostgresConfig {
        host: "db".to_string(),
        port: 5432,
        db: "bills".to_string(),
        user: "app user".to_string(),
        password: "p@ss/w:rd".to_string(),
        max_pool_size: 6,
        min_idle: 1,
    };
    assert_eq!(p.database_url(), "postgres://app%20user:p%40ss%2Fw%3Ard@db:5432/bills");
}

#[test]
fn amqp_url_encodes_vhost() {
    let mut r = RabbitMqConfig {
        host: "mq".to_string(),
        port: 5672,
        user: "guest".to_string(),
        password: "gu est".to_string(),
        vhost: "/".to_string(),
        bill_created_queue: "bill-created".to_string(),
    };
    assert_eq!(r.amqp_url(), "amqp://guest:gu%20est@mq:5672/%2F");
    r.vhost = "//sales team".to_string();
    assert_eq!(r.amqp_url(), "amqp://guest:gu%20est@mq:5672/sales%20team");
    r.port = 7;
    r.vhost = "x".to_string();
    assert_eq!(r.amqp_url(), "amqp://guest:gu%20est@mq:7/x");
}
