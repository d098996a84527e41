use getcat::model::{Method, SplitDirection, Ulid};
use getcat::panes::{status_bar, url_bar, StatusBar, UpdateButton, UrlAction};
use getcat::request_tab::RequestTab;
use getcat::update::UpdateStatus;

#[test]
fn a_request_under_way_can_be_cancelled() {
    let mut t = RequestTab::new(Ulid(1), SplitDirection::Horizontal);
    let bar = url_bar(&t);
    assert_eq!((bar.method, bar.action, bar.error), (Method::Get, UrlAction::Send, None));
    assert!(t.send().is_none());
    let bar = url_bar(&t);
    assert_eq!(bar.action, UrlAction::Send);
    assert_eq!(bar.error, t.url_error);
    assert!(bar.error.is_some());
    t.set_url("http://x.test/");
    assert_eq!(url_bar(&t).error, None);
    assert!(t.send().is_some());
    assert_eq!(url_bar(&t).action, UrlAction::Cancel);
    t.cancel();
    assert_eq!(url_bar(&t).action, UrlAction::Send);
}

#[test]
fn the_status_bar_points_out_new_versions_only() {
    let v = || "2.0.0".to_string();
    assert_eq!(
        status_bar(&UpdateStatus::Available(v()), SplitDirection::Horizontal),
        StatusBar {
            update: Some(UpdateButton::Show(v())),
            right: true,
            below: false
        }
    );
    assert_eq!(
        status_bar(&UpdateStatus::Staged(v()), SplitDirection::Vertical),
        StatusBar {
            update: Some(UpdateButton::Restart(v())),
            right: false,
            below: true
        }
    );
    for quiet in [
        UpdateStatus::Idle,
        UpdateStatus::Installing,
        UpdateStatus::Errored("offline".into()),
    ] {
        assert_eq!(status_bar(&quiet, SplitDirection::Vertical).update, None);
    }
}
