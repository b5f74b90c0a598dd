use pbs_store::types::{DataStoreConfig, MaintenanceType};

fn config(mode: Option<&str>) -> DataStoreConfig {
    DataStoreConfig {
        name: "store1".to_string(),
        path: "/backup/store1".to_string(),
        comment: None,
        gc_schedule: None,
        prune_schedule: None,
        keep_last: None,
        keep_hourly: None,
        keep_daily: None,
        keep_weekly: None,
        keep_monthly: None,
        keep_yearly: None,
        verify_new: None,
        notify_user: None,
        notify: None,
        tuning: None,
        maintenance_mode: mode.map(|m| m.to_string()),
    }
}

#[test]
fn maintenance_mode_parsing() {
    assert!(config(None).get_maintenance_mode().is_none());
    let m = config(Some("offline")).get_maintenance_mode().unwrap();
    assert_eq!(m.ty, MaintenanceType::Offline);
    assert!(m.message.is_none());
    let m = config(Some("type=read-only,message=\"disk swap, back soon\"")).get_maintenance_mode().unwrap();
    assert_eq!(m.ty, MaintenanceType::ReadOnly);
    assert_eq!(m.message.as_deref(), Some("disk swap, back soon"));
    let m = config(Some("type=offline,message=moving")).get_maintenance_mode().unwrap();
    assert_eq!(m.message.as_deref(), Some("moving"));
    assert!(config(Some("type=sleeping")).get_maintenance_mode().is_none());
    assert!(config(Some("offline,note=x")).get_maintenance_mode().is_none());
    assert!(config(Some("offline,message=\"open")).get_maintenance_mode().is_none());
}
