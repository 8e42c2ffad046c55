use csgo_loader::payload::Product;
use csgo_loader::setup::{launch_status, needs_game_files, status_event};
use csgo_loader::text::{decimal_of, signed_decimal_of};
use csgo_loader::web::{route, Asset};

#[test]
fn routes_bundled_files() {
    assert_eq!(route("/"), ("text/html; charset=utf-8", Asset::Index));
    assert_eq!(route("/index.html"), ("text/html; charset=utf-8", Asset::Index));
    assert_eq!(route("/styles.css"), ("text/css; charset=utf-8", Asset::Styles));
    assert_eq!(route("//app.js"), ("application/javascript; charset=utf-8", Asset::Script));
    assert_eq!(route("/assets/images/gs.png"), ("image/png", Asset::GamesenseIcon));
    assert_eq!(route("/assets/images/primo.png"), ("image/png", Asset::PrimordialIcon));
    assert_eq!(route("/assets/images/nl.png"), ("image/png", Asset::NeverloseIcon));
    assert_eq!(route("/missing"), ("text/html; charset=utf-8", Asset::Index));
}

#[test]
fn status_events_cap_the_percentage() {
    let e = status_event("done", "Done! Open CS:GO".to_string(), 150, "success");
    assert_eq!(e.percent, 100);
    assert_eq!(e.stage, "done");
    assert_eq!(e.message, "Done! Open CS:GO");
    assert_eq!(e.level, "success");
    assert_eq!(status_event("x", String::new(), 75, "info").percent, 75);
}

#[test]
fn launch_stages() {
    assert!(needs_game_files(Product::Neverlose));
    assert!(!needs_game_files(Product::Gamesense));
    assert_eq!(launch_status(Product::Neverlose), ("utility", "Starting bundled utility..."));
    assert_eq!(launch_status(Product::Primordial), ("primordial", "Starting Primordial..."));
    assert_eq!(launch_status(Product::Gamesense), ("gamesense", "Starting Gamesense..."));
}

#[test]
fn decimal_text() {
    assert_eq!(decimal_of(0), vec!['0']);
    assert_eq!(decimal_of(120), vec!['1', '2', '0']);
    assert_eq!(signed_decimal_of(-5), vec!['-', '5']);
    assert_eq!(signed_decimal_of(i64::MIN).len(), 20);
}
