use zskins::zbar::tray::argb_be_to_bgra;
use zskins::zbar::tray::best_pixmap_from_tuples;
use zskins::zbar::tray::host_name;
use zskins::zbar::tray::icon_format;
use zskins::zbar::tray::is_icon_file;
use zskins::zbar::tray::parse_address;
use zskins::zbar::tray::read_props;
use zskins::zbar::tray::recolor_svg_for_panel;
use zskins::zbar::tray::render_argb_pixmap;
use zskins::zbar::tray::decode_picture;
use zskins::zbar::tray::pixmap_from_rgba;
use zskins::zbar::tray::rgba_to_bgra;
use zskins::zbar::tray::resolve_icon;
use zskins::zbar::tray::resolve_sender;
use zskins::zbar::tray::tooltip_from_structure;
use zskins::zbar::tray::ActivateAction;
use zskins::zbar::tray::ActivateReq;
use zskins::zbar::tray::HostAction;
use zskins::zbar::tray::HostSession;
use zskins::zbar::tray::IconFormat;
use zskins::zbar::tray::IconPlan;
use zskins::zbar::tray::ItemCall;
use zskins::zbar::tray::ItemStatus;
use zskins::zbar::tray::Orientation;
use zskins::zbar::tray::RawProps;
use zskins::zbar::tray::TrayAction;
use zskins::zbar::tray::TrayItemMeta;
use zskins::zbar::tray::TrayModule;
use zskins::zbar::tray::TrayMsg;
use zskins::zbar::tray::WatcherEvent;
use zskins::zbar::tray::WatcherState;
use zskins::zbar::tray::MAX_ICON_DIM;

#[test]
fn argb_be_to_bgra_maps_single_pixel() {
    let src = [0x12, 0x34, 0x56, 0x78];
    let dst = argb_be_to_bgra(&src);
    assert_eq!(dst, vec![0x78, 0x56, 0x34, 0x12]);
}

#[test]
fn argb_be_to_bgra_maps_multiple_pixels() {
    let src = [0xFF, 0xFF, 0x00, 0x00, 0x80, 0x00, 0xFF, 0x00];
    let dst = argb_be_to_bgra(&src);
    assert_eq!(dst, vec![0x00, 0x00, 0xFF, 0xFF, 0x00, 0xFF, 0x00, 0x80]);
}

#[test]
fn argb_be_to_bgra_preserves_length() {
    let src = vec![0u8; 16];
    assert_eq!(argb_be_to_bgra(&src).len(), 16);
}

#[test]
fn argb_be_to_bgra_ignores_trailing_partial_pixel() {
    let src = [0x12, 0x34, 0x56, 0x78, 0xAA, 0xBB];
    let dst = argb_be_to_bgra(&src);
    assert_eq!(dst, vec![0x78, 0x56, 0x34, 0x12]);
}

#[test]
fn argb_twice_gives_the_pixels_back() {
    let src = [1, 2, 3, 4, 5, 6, 7, 8];
    assert_eq!(argb_be_to_bgra(&argb_be_to_bgra(&src)), src.to_vec());
}

#[test]
fn render_argb_pixmap_rejects_negative_dimensions() {
    assert!(render_argb_pixmap(-1, 10, &[0u8; 40]).is_none());
    assert!(render_argb_pixmap(10, 0, &[0u8; 40]).is_none());
}

#[test]
fn render_argb_pixmap_rejects_oversize_dimensions() {
    let side = MAX_ICON_DIM + 1;
    let bytes = vec![0u8; (side as usize) * (side as usize) * 4];
    assert!(render_argb_pixmap(side, side, &bytes).is_none());
}

#[test]
fn render_argb_pixmap_rejects_overflow_dimensions() {
    let huge = 0x10000i32;
    assert!(render_argb_pixmap(huge, huge, &[]).is_none());
}

#[test]
fn render_argb_pixmap_rejects_wrong_buffer_length() {
    assert!(render_argb_pixmap(2, 2, &[0u8; 8]).is_none());
}

#[test]
fn render_argb_pixmap_accepts_a_whole_image() {
    let icon = render_argb_pixmap(1, 2, &[1, 2, 3, 4, 5, 6, 7, 8]).unwrap();
    assert_eq!((icon.width, icon.height), (1, 2));
    assert_eq!(icon.bgra, vec![4, 3, 2, 1, 8, 7, 6, 5]);
}

#[test]
fn best_pixmap_from_tuples_survives_i32_overflow_key() {
    let pixmaps = vec![(0x8000i32, 0x8000i32, vec![]), (-1i32, -1i32, vec![])];
    assert!(best_pixmap_from_tuples(&pixmaps).is_none());
}

#[test]
fn best_pixmap_is_the_last_of_the_largest() {
    let pixmaps = vec![
        (1, 1, vec![9u8; 4]),
        (1, 2, vec![1u8; 8]),
        (2, 1, vec![2u8; 8]),
        (1, 1, vec![3u8; 4]),
    ];
    let best = best_pixmap_from_tuples(&pixmaps).unwrap();
    assert_eq!((best.width, best.height), (2, 1));
    assert_eq!(best.bgra, vec![2u8; 8]);
}

#[test]
fn address_splits_at_the_first_slash() {
    assert_eq!(parse_address(":1.5/StatusNotifierItem"), (":1.5", "/StatusNotifierItem"));
    assert_eq!(parse_address(":1.5"), (":1.5", "/StatusNotifierItem"));
}

#[test]
fn sender_of_a_bare_path_is_the_caller() {
    assert_eq!(resolve_sender("/org/ayatana/item", Some(":1.7")), ":1.7/org/ayatana/item");
    assert_eq!(resolve_sender("org.kde.item-1", Some(":1.7")), "org.kde.item-1");
}

#[test]
fn lost_owner_takes_its_items_along() {
    let mut state = WatcherState::new();
    state.register_item("/a", Some(":1.1"));
    state.register_item("/b", Some(":1.2"));
    let gone = state.owner_changed(Some(":1.1"), None);
    assert_eq!(gone, vec![":1.1/a".to_string()]);
    assert!(state.owner_changed(Some(":1.1"), None).is_empty());
}

#[test]
fn hosts_are_counted() {
    let mut state = WatcherState::new();
    assert!(!state.has_host());
    state.register_host("org.kde.host", Some(":1.3"));
    assert!(state.has_host());
}

#[test]
fn unknown_status_counts_as_active() {
    assert!(matches!(ItemStatus::from_str("Passive"), ItemStatus::Passive));
    assert!(matches!(ItemStatus::from_str("NeedsAttention"), ItemStatus::NeedsAttention));
    assert!(matches!(ItemStatus::from_str("whatever"), ItemStatus::Active));
}

#[test]
fn tooltip_needs_four_fields() {
    assert!(tooltip_from_structure(&vec![None, None, Some("t".to_string())]).is_none());
    let tip = tooltip_from_structure(&vec![
        None,
        None,
        Some("title".to_string()),
        Some("body".to_string()),
    ])
    .unwrap();
    assert!(!tip.is_empty());
}

#[test]
fn icon_files_go_by_stem_and_extension() {
    assert!(is_icon_file(Some("mail"), Some("svg"), "mail"));
    assert!(is_icon_file(Some("mail"), Some("png"), "mail"));
    assert!(!is_icon_file(Some("mail"), Some("txt"), "mail"));
    assert!(!is_icon_file(Some("mails"), Some("png"), "mail"));
    assert!(!is_icon_file(None, Some("png"), "mail"));
}

#[test]
fn icon_format_goes_by_extension_and_size() {
    assert!(matches!(icon_format(10, Some("svg")), Some(IconFormat::Svg)));
    assert!(matches!(icon_format(10, Some("png")), Some(IconFormat::Png)));
    assert!(matches!(icon_format(10, Some("bmp")), Some(IconFormat::Bitmap)));
    assert!(icon_format(10, Some("txt")).is_none());
    assert!(icon_format(10, None).is_none());
    assert!(icon_format(0x40_0001, Some("png")).is_none());
}

#[test]
fn svg_is_recoloured_for_the_panel() {
    let svg = b"<svg fill=\"#232629\" stroke=\"#000000\" x=\"#ffffff\"/>".to_vec();
    let out = String::from_utf8(recolor_svg_for_panel(svg, "#cdd6f4")).unwrap();
    assert_eq!(out, "<svg fill=\"#cdd6f4\" stroke=\"#cdd6f4\" x=\"#ffffff\"/>");
}

#[test]
fn svg_that_is_not_text_is_mended() {
    let out = recolor_svg_for_panel(vec![b'a', 0xff, b'b'], "#cdd6f4");
    assert_eq!(out, "a\u{fffd}b".as_bytes());
}

fn add(addr: &str) -> TrayMsg {
    TrayMsg::Add {
        addr: addr.to_string(),
        icon: None,
        status: ItemStatus::Active,
        tooltip: None,
    }
}

#[test]
fn tray_shows_what_is_not_passive() {
    let mut tray = TrayModule::new();
    assert_eq!(tray.apply(add("a")), TrayAction::Repaint);
    assert_eq!(
        tray.apply(TrayMsg::UpdateStatus("a".into(), ItemStatus::NeedsAttention)),
        TrayAction::Repaint
    );
    assert_eq!(
        tray.apply(TrayMsg::UpdateStatus("a".into(), ItemStatus::NeedsAttention)),
        TrayAction::Nothing
    );
    assert!(tray.cell(0).unwrap().attention);
    tray.apply(TrayMsg::UpdateStatus("a".into(), ItemStatus::Passive));
    assert!(tray.cell(0).is_none());
}

#[test]
fn pixels_come_before_names() {
    let pixels = render_argb_pixmap(1, 1, &[1, 2, 3, 4]);
    assert!(matches!(resolve_icon(pixels, "mail", None), IconPlan::Pixels(_)));
    assert!(matches!(resolve_icon(None, "", None), IconPlan::Nothing));
    assert!(matches!(resolve_icon(None, "/a/b.png", None), IconPlan::File(p) if p == "/a/b.png"));
    assert!(matches!(resolve_icon(None, "mail", None), IconPlan::Search { .. }));
}

#[test]
fn menus_are_fetched_where_there_is_one() {
    let mut host = HostSession::new();
    host.item_added(
        ":1.5/Item".to_string(),
        TrayItemMeta {
            menu_path: Some("/Menu".to_string()),
            icon_theme_path: None,
        },
    );
    assert!(matches!(
        host.handle_activate(&ActivateReq::Menu(":1.5/Item".to_string())),
        ActivateAction::FetchMenu(p) if p == "/Menu"
    ));
    assert!(matches!(
        host.handle_activate(&ActivateReq::Scroll(":1.5/Item".to_string(), -3, Orientation::Horizontal)),
        ActivateAction::Call(dest, path, ItemCall::Scroll(-3, Orientation::Horizontal)) if dest == ":1.5" && path == "/Item"
    ));
    assert_eq!(host.on_event(&WatcherEvent::ItemRemoved(":1.5/Item".to_string())), HostAction::RemoveItem);
}

#[test]
fn hosts_have_a_name_of_their_own() {
    assert_eq!(host_name(42), "org.freedesktop.StatusNotifierHost-42");
}

#[test]
fn properties_are_read() {
    let props = read_props(RawProps {
        icon_name: Some("mail".into()),
        icon_pixmap: None,
        icon_theme_path: Some(String::new()),
        status: Some("NeedsAttention".into()),
        menu: Some("/Menu".into()),
        tooltip: None,
    });
    assert_eq!(props.icon_name, "mail");
    assert_eq!(props.status, ItemStatus::NeedsAttention);
    assert_eq!(props.menu_path.as_deref(), Some("/Menu"));
    assert!(props.icon_theme_path.is_none());
    assert!(props.tooltip.is_none());
}

#[test]
fn menus_are_remembered_and_items_asked_again() {
    let mut tray = TrayModule::new();
    tray.apply(add("a"));
    tray.menu_opened("a".to_string());
    assert_eq!(tray.open_menu.as_deref(), Some("a"));
    assert_eq!(tray.apply(TrayMsg::CloseMenu), TrayAction::CloseMenu);
    let mut host = HostSession::new();
    host.item_added(
        "a".to_string(),
        TrayItemMeta {
            menu_path: None,
            icon_theme_path: None,
        },
    );
    assert_eq!(host.refetch_targets(), vec!["a".to_string()]);
}

#[test]
fn rgba_to_bgra_swaps_red_and_blue() {
    let src = [10, 20, 30, 40, 50, 60, 70, 80, 99];
    assert_eq!(rgba_to_bgra(&src), vec![30, 20, 10, 40, 70, 60, 50, 80]);
}

#[test]
fn orientation_is_told_in_words() {
    assert_eq!(Orientation::Vertical.as_str(), "vertical");
    assert_eq!(Orientation::Horizontal.as_str(), "horizontal");
}

#[test]
fn pictures_are_decoded() {
    // Two pixels, red and then green, as a bitmap of 24 bits each.
    let mut bmp: Vec<u8> = b"BM".to_vec();
    bmp.extend([62, 0, 0, 0, 0, 0, 0, 0, 54, 0, 0, 0]);
    bmp.extend([40, 0, 0, 0, 2, 0, 0, 0, 1, 0, 0, 0, 1, 0, 24, 0]);
    bmp.extend([0; 24]);
    bmp.extend([0, 0, 255, 0, 255, 0, 0, 0]);
    let picture = decode_picture(&bmp).unwrap();
    assert_eq!((picture.width, picture.height), (2, 1));
    assert_eq!(picture.bgra, vec![0, 0, 255, 255, 0, 255, 0, 255]);
    assert_eq!(decode_picture(b"no picture"), None);
    assert_eq!(decode_picture(&bmp[..20]), None);
}

#[test]
fn decoded_pixels_are_reordered() {
    let picture = pixmap_from_rgba(1, 2, &[1, 2, 3, 4, 5, 6, 7, 8]);
    assert_eq!((picture.width, picture.height), (1, 2));
    assert_eq!(picture.bgra, vec![3, 2, 1, 4, 7, 6, 5, 8]);
}
