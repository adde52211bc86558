use wave::playlists::{
    check_playlist_clear, check_playlist_delete, check_playlist_rename, name_taken_error,
    new_playlist_name, playlists_to_reset, sync_added_count, sync_folder_value,
    sync_has_nothing_to_apply, sync_removal_action, SyncRemoval,
};

#[test]
fn new_playlists_need_a_name() {
    assert_eq!(new_playlist_name("  Road trip "), Ok("Road trip".to_string()));
    assert_eq!(new_playlist_name(" \t "), Err("Playlist name cannot be empty".to_string()));
    assert_eq!(name_taken_error("Mix"), "A playlist named \"Mix\" already exists");
}

#[test]
fn sync_folders_are_trimmed() {
    assert_eq!(sync_folder_value(None), None);
    assert_eq!(sync_folder_value(Some("   ")), None);
    assert_eq!(sync_folder_value(Some(" /music ")), Some("/music".to_string()));
}

#[test]
fn default_playlists_cannot_be_deleted() {
    assert_eq!(check_playlist_delete(None), Err("Playlist not found".to_string()));
    assert_eq!(
        check_playlist_delete(Some("Library")),
        Err("The default Library playlist cannot be deleted".to_string())
    );
    assert_eq!(
        check_playlist_delete(Some("All Local Files")),
        Err("The default Library playlist cannot be deleted".to_string())
    );
    assert_eq!(
        check_playlist_delete(Some("Favorites")),
        Err("The \"Favorites\" playlist cannot be deleted".to_string())
    );
    assert_eq!(check_playlist_delete(Some("Mix")), Ok(()));
}

#[test]
fn renames_are_checked_in_order() {
    assert_eq!(
        check_playlist_rename("  ", None, false),
        Err("Playlist name cannot be empty".to_string())
    );
    assert_eq!(check_playlist_rename("New", None, false), Err("Playlist not found".to_string()));
    assert_eq!(
        check_playlist_rename("New", Some("Library"), false),
        Err("The default Library playlist cannot be renamed".to_string())
    );
    assert_eq!(
        check_playlist_rename("New", Some("Favorites"), false),
        Err("The \"Favorites\" playlist cannot be renamed".to_string())
    );
    assert_eq!(
        check_playlist_rename(" Taken ", Some("Mix"), true),
        Err("A playlist named \"Taken\" already exists".to_string())
    );
    assert_eq!(check_playlist_rename(" Mix ", Some("Mix"), true), Ok("Mix".to_string()));
    assert_eq!(check_playlist_rename("Chill", Some("Mix"), false), Ok("Chill".to_string()));
}

#[test]
fn favorites_and_synced_playlists_are_not_cleared() {
    assert_eq!(
        check_playlist_clear(true, None),
        Err("Favorites cannot be cleared with clear playlist".to_string())
    );
    assert_eq!(
        check_playlist_clear(false, Some("/music")),
        Err("Synced playlists cannot be cleared. Unlink the sync folder first.".to_string())
    );
    assert_eq!(check_playlist_clear(false, Some("  ")), Ok(()));
    assert_eq!(check_playlist_clear(false, None), Ok(()));
}

#[test]
fn reset_keeps_library_and_favorites() {
    let ids: Vec<String> = vec!["lib".into(), "a".into(), "fav".into(), "b".into()];
    assert_eq!(playlists_to_reset(&ids, "lib", "fav"), vec!["a".to_string(), "b".to_string()]);
    assert!(playlists_to_reset(&[], "lib", "fav").is_empty());
}

#[test]
fn sync_steps_are_decided() {
    assert!(sync_has_nothing_to_apply(0, 0, 0));
    assert!(!sync_has_nothing_to_apply(0, 1, 0));
    let kept = vec!["t1".to_string(), "t2".to_string()];
    assert_eq!(sync_removal_action(true, None, &kept), SyncRemoval::Skip);
    assert_eq!(sync_removal_action(false, Some("t2"), &kept), SyncRemoval::Skip);
    assert_eq!(sync_removal_action(true, Some("t3"), &kept), SyncRemoval::DeleteTrack);
    assert_eq!(sync_removal_action(false, Some("t3"), &kept), SyncRemoval::DropMembership);
    assert_eq!(sync_added_count(true, false, false, 4), 5);
    assert_eq!(sync_added_count(true, true, false, 4), 4);
    assert_eq!(sync_added_count(false, true, true, 4), 5);
    assert_eq!(sync_added_count(false, false, false, 4), 4);
}
