use mandelbrot::config::{Config, GridSpec};
use mandelbrot::sample::SCALE;

fn to_micro(x: f64) -> i64 {
    (x * SCALE as f64).round() as i64
}

fn to_real(micro: i64) -> f64 {
    micro as f64 / SCALE as f64
}

#[test]
fn default_config_values() {
    let c = Config::default();
    assert_eq!(c.grid.re_min, to_micro(-1.45));
    assert_eq!(c.grid.re_max, to_micro(0.45));
    assert_eq!(c.grid.im_min, to_micro(-0.9));
    assert_eq!(c.grid.im_max, to_micro(0.9));
    assert_eq!(c.grid.delta, to_micro(0.0005));
    assert_eq!(c.iterations, 200);
    assert_eq!(c.bound, to_micro(2.0));
    assert_eq!(c.threads, 1);
    assert!(c.validate());
}

#[test]
fn validate_rejects_bad_fields() {
    let good = Config::default();
    let mut c = good;
    c.grid.delta = 0;
    assert!(!c.validate());
    c = good;
    c.grid.re_min = 1;
    c.grid.re_max = 0;
    assert!(!c.validate());
    c = good;
    c.iterations = 0;
    assert!(!c.validate());
    c = good;
    c.bound = 0;
    assert!(!c.validate());
    c = good;
    c.threads = 0;
    assert!(!c.validate());
    c = good;
    c.grid.delta = 200_000_000;
    assert!(!c.validate());
}

fn config_to_toml(c: &Config) -> String {
    let mut grid = toml::Table::new();
    grid.insert("re_min".to_string(), toml::Value::Float(to_real(c.grid.re_min)));
    grid.insert("re_max".to_string(), toml::Value::Float(to_real(c.grid.re_max)));
    grid.insert("im_min".to_string(), toml::Value::Float(to_real(c.grid.im_min)));
    grid.insert("im_max".to_string(), toml::Value::Float(to_real(c.grid.im_max)));
    grid.insert("delta".to_string(), toml::Value::Float(to_real(c.grid.delta)));
    let mut root = toml::Table::new();
    root.insert("grid".to_string(), toml::Value::Table(grid));
    root.insert("iterations".to_string(), toml::Value::Integer(c.iterations as i64));
    root.insert("bound".to_string(), toml::Value::Float(to_real(c.bound)));
    root.insert("threads".to_string(), toml::Value::Integer(c.threads as i64));
    toml::to_string(&root).expect("serialize configuration")
}

fn config_from_toml(text: &str) -> Config {
    let root: toml::Table = toml::from_str(text).expect("parse configuration");
    let grid = root["grid"].as_table().expect("grid table");
    let field = |name: &str| to_micro(grid[name].as_float().expect("grid field"));
    Config {
        grid: GridSpec {
            re_min: field("re_min"),
            re_max: field("re_max"),
            im_min: field("im_min"),
            im_max: field("im_max"),
            delta: field("delta"),
        },
        iterations: root["iterations"].as_integer().expect("iterations") as usize,
        bound: to_micro(root["bound"].as_float().expect("bound")),
        threads: root["threads"].as_integer().expect("threads") as usize,
    }
}

#[test]
fn default_config_round_trips_through_toml() {
    // Persisting the default configuration and reloading it yields a record
    // identical field for field.
    let written = Config::default();
    let text = config_to_toml(&written);
    let reloaded = config_from_toml(&text);
    assert_eq!(reloaded, written);
}

#[test]
fn arbitrary_config_round_trips_through_toml() {
    let written = Config {
        grid: GridSpec {
            re_min: to_micro(-2.5),
            re_max: to_micro(1.25),
            im_min: to_micro(-1.125),
            im_max: to_micro(1.0),
            delta: to_micro(0.001),
        },
        iterations: 64,
        bound: to_micro(4.0),
        threads: 8,
    };
    let text = config_to_toml(&written);
    let reloaded = config_from_toml(&text);
    assert_eq!(reloaded, written);
}

#[test]
fn validate_for_run_caps_workers_by_sample_count() {
    // Six samples: up to six workers are accepted, seven are rejected
    // already at configuration-validation time.
    let mut c = Config {
        grid: GridSpec { re_min: 0, re_max: 4, im_min: 0, im_max: 2, delta: 2 },
        iterations: 10,
        bound: 2 * SCALE,
        threads: 6,
    };
    assert!(c.validate_for_run());
    c.threads = 7;
    assert!(c.validate());
    assert!(!c.validate_for_run());
}
