use cos_niri_bar::calendar::{CalendarDate, CalendarPopup, ShelfClock};
use cos_niri_bar::cli::Startup;
use cos_niri_bar::niri_ipc::{FocusAction, IpcReply, NiriIpcClient};
use cos_niri_bar::settings::PerformanceSettings;
use cos_niri_bar::workspaces::{init_fallback, scroll_target, set_active_workspace, stale_pills, update_workspaces, WorkspaceInfo};

fn ws(id: u64, idx: u8, name: Option<&str>, active: bool) -> WorkspaceInfo {
    WorkspaceInfo { id, idx, name: name.map(|s| s.to_string()), is_active: active, is_focused: false }
}

fn date(year: i32, month: u32, day: u32) -> CalendarDate {
    CalendarDate { year, month, day }
}

#[test]
fn workspace_pills_sorted_and_labelled() {
    let list = vec![ws(30, 3, None, false), ws(10, 1, None, true), ws(20, 2, Some("web"), false)];
    let layout = update_workspaces(&list, &vec![10, 20, 30]);
    let ids: Vec<u64> = layout.pills.iter().map(|p| p.id).collect();
    let labels: Vec<String> = layout.pills.iter().map(|p| p.label.clone()).collect();
    assert_eq!(ids, vec![10, 20, 30]);
    assert_eq!(labels, vec!["1", "web", "3"]);
    assert_eq!(layout.active_id, Some(10));
    assert!(layout.pills[0].active && !layout.pills[1].active);
    assert_eq!(layout.order, vec![10, 20, 30]);
    assert!(!layout.order_changed);
    let changed = update_workspaces(&list, &vec![10, 30]);
    assert!(changed.order_changed);
}

#[test]
fn equal_indices_keep_their_order() {
    let list = vec![ws(5, 2, None, false), ws(6, 1, None, false), ws(7, 2, None, false)];
    let layout = update_workspaces(&list, &vec![]);
    assert_eq!(layout.order, vec![6, 5, 7]);
    assert_eq!(layout.active_id, None);
}

#[test]
fn scrolling_and_pills() {
    let order = vec![10, 20, 30];
    assert_eq!(scroll_target(&order, Some(20), 1), Some(30));
    assert_eq!(scroll_target(&order, Some(20), -1), Some(10));
    assert_eq!(scroll_target(&order, Some(30), 1), None);
    assert_eq!(scroll_target(&order, Some(10), -1), None);
    assert_eq!(scroll_target(&order, Some(20), 0), None);
    assert_eq!(scroll_target(&order, Some(99), 1), None);
    assert_eq!(scroll_target(&order, None, 1), None);
    assert_eq!(scroll_target(&order, scroll_target(&order, Some(10), 1), -1), Some(10));
    assert_eq!(stale_pills(&vec![1, 2, 3, 4], &vec![2, 4]), vec![1, 3]);
    assert!(set_active_workspace(3, 3));
    let fb = init_fallback();
    assert_eq!(fb.len(), 3);
    assert_eq!(fb[2].label, "3");
    assert!(fb[0].active && !fb[1].active);
}

#[test]
fn month_navigation() {
    let p = CalendarPopup::prev_month(date(2024, 1, 15));
    assert_eq!((p.year, p.month, p.day), (2023, 12, 1));
    let n = CalendarPopup::next_month(date(2023, 12, 10));
    assert_eq!((n.year, n.month, n.day), (2024, 1, 1));
    let back = CalendarPopup::next_month(CalendarPopup::prev_month(date(2024, 3, 31)));
    assert_eq!((back.year, back.month, back.day), (2024, 3, 1));
    let edge = CalendarPopup::next_month(date(262142, 12, 5));
    assert_eq!((edge.year, edge.month, edge.day), (262142, 12, 5));
}

#[test]
fn february_of_a_leap_year() {
    let g = CalendarPopup::render_grid(date(2024, 2, 10), date(2024, 2, 29));
    assert_eq!(g.title, "February 2024");
    assert_eq!(g.cells.len(), 42);
    assert_eq!(g.cells[2].day, None);
    assert_eq!(g.cells[3].day, Some(1));
    assert_eq!(g.cells[31].day, Some(29));
    assert!(g.cells[31].is_today);
    assert!(!g.cells[30].is_today);
    assert_eq!(g.cells[32].day, None);
}

#[test]
fn month_cells_and_clock() {
    let cells = CalendarPopup::month_cells(7, 31, Some(2));
    assert_eq!(cells[5].day, None);
    assert_eq!(cells[6].day, Some(1));
    assert_eq!(cells[7].day, Some(2));
    assert!(cells[7].is_today);
    assert_eq!(cells[36].day, Some(31));
    assert_eq!(cells[37].day, None);
    assert_eq!(ShelfClock::secs_to_next_minute(0), 60);
    assert_eq!(ShelfClock::secs_to_next_minute(59), 1);
    assert_eq!(ShelfClock::secs_to_next_minute(60), 1);
}

#[test]
fn command_line_and_start_up() {
    let args = |v: &[&str]| v.iter().map(|s| s.to_string()).collect::<Vec<String>>();
    assert_eq!(Startup::initial_settings_page(&args(&["bin", "--open-settings", "blur"])).as_deref(), Some("blur"));
    assert_eq!(Startup::initial_settings_page(&args(&["bin", "--open-settings"])).as_deref(), Some("appearance"));
    assert_eq!(Startup::initial_settings_page(&args(&["bin", "x"])), None);
    assert_eq!(
        Startup::initial_settings_page(&args(&["bin", "--open-settings", "a", "--open-settings", "b"])).as_deref(),
        Some("b")
    );
    let perf = PerformanceSettings { renderer: "gl".to_string(), launcher_backend: "builtin".to_string() };
    assert_eq!(Startup::renderer_env(&perf).as_deref(), Some("gl"));
    let none = PerformanceSettings { renderer: String::new(), launcher_backend: String::new() };
    assert_eq!(Startup::renderer_env(&none), None);
    assert_eq!(Startup::colors_css(Some("x".to_string())), "x");
    assert!(Startup::colors_css(None).starts_with("@define-color primary #b4c5ff;"));
}

#[test]
fn niri_replies_and_actions() {
    assert_eq!(NiriIpcClient::get_workspaces(IpcReply::Handled).err().as_deref(), Some("Unexpected response: Handled"));
    assert_eq!(NiriIpcClient::get_windows(IpcReply::Other).err().as_deref(), Some("Unexpected IPC response"));
    assert_eq!(
        NiriIpcClient::get_workspaces(IpcReply::Failure("boom".to_string())).err().as_deref(),
        Some("IPC Error: boom")
    );
    let ok = NiriIpcClient::get_workspaces(IpcReply::Workspaces(vec![ws(1, 1, None, true)])).unwrap();
    assert_eq!(ok.len(), 1);
    assert!(NiriIpcClient::listen_events(&IpcReply::Handled).is_ok());
    assert_eq!(NiriIpcClient::listen_events(&IpcReply::Other).err().as_deref(), Some("Failed to subscribe to EventStream"));
    assert_eq!(NiriIpcClient::focus_workspace_id(4), FocusAction::WorkspaceId(4));
    assert_eq!(NiriIpcClient::focus_workspace_index(2), FocusAction::WorkspaceIndex(2));
    assert_eq!(NiriIpcClient::focus_window(9), FocusAction::Window(9));
}

#[test]
fn titles_and_first_weekdays_across_years() {
    let g = CalendarPopup::render_grid(date(5, 3, 1), date(2024, 1, 1));
    assert_eq!(g.title, "March 0005");
    let g = CalendarPopup::render_grid(date(10000, 1, 1), date(2024, 1, 1));
    assert_eq!(g.title, "January +10000");
    let g = CalendarPopup::render_grid(date(-1, 12, 1), date(2024, 1, 1));
    assert_eq!(g.title, "December -0001");
    // 1970-01-01 was a Thursday, 2024-01-01 a Monday, 2000-03-01 a Wednesday.
    assert_eq!(CalendarPopup::render_grid(date(1970, 1, 20), date(1970, 1, 1)).cells[3].day, Some(1));
    assert_eq!(CalendarPopup::render_grid(date(2024, 1, 20), date(1970, 1, 1)).cells[0].day, Some(1));
    assert_eq!(CalendarPopup::render_grid(date(2000, 3, 20), date(1970, 1, 1)).cells[2].day, Some(1));
    assert_eq!(CalendarPopup::render_grid(date(1600, 2, 20), date(1970, 1, 1)).cells[1].day, Some(1));
    assert_eq!(CalendarPopup::render_grid(date(-1, 12, 20), date(1970, 1, 1)).cells[2].day, Some(1));
}

#[test]
fn shelf_clock_and_date_texts() {
    assert_eq!(ShelfClock::clock_label(9, 5).as_deref(), Some("09:05"));
    assert_eq!(ShelfClock::clock_label(23, 59).as_deref(), Some("23:59"));
    assert_eq!(ShelfClock::clock_label(24, 0), None);
    assert_eq!(ShelfClock::clock_label(0, 60), None);
    assert_eq!(ShelfClock::date_label(2024, 3, 5).as_deref(), Some("Mar 5"));
    assert_eq!(ShelfClock::date_label(2024, 12, 25).as_deref(), Some("Dec 25"));
    assert_eq!(ShelfClock::date_label(2023, 2, 29), None);
}
