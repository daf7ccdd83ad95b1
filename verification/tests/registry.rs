use mini_wallpaper::registry::TimerRegistry;

fn runtime() -> tokio::runtime::Runtime {
    tokio::runtime::Builder::new_current_thread().enable_time().build().unwrap()
}

#[test]
fn register_replaces_and_stop_forgets() {
    let rt = runtime();
    rt.block_on(async {
        let mut reg = TimerRegistry::new();
        let first = tokio::spawn(std::future::pending::<()>());
        reg.register("carousel:A".to_string(), first);
        assert!(reg.is_running("carousel:A"));
        assert_eq!(reg.len(), 1);
        reg.register("carousel:A".to_string(), tokio::spawn(std::future::pending::<()>()));
        assert_eq!(reg.len(), 1);
        reg.restart("carousel:B".to_string(), tokio::spawn(std::future::pending::<()>()));
        assert_eq!(reg.len(), 2);
        reg.stop("carousel:A");
        assert!(!reg.is_running("carousel:A"));
        assert_eq!(reg.len(), 1);
        reg.stop("missing");
        assert_eq!(reg.len(), 1);
        reg.stop_all();
        assert_eq!(reg.len(), 0);
        assert!(!reg.is_running("carousel:B"));
    });
}

#[test]
fn finished_task_is_not_running() {
    let rt = runtime();
    rt.block_on(async {
        let mut reg = TimerRegistry::new();
        let h = tokio::spawn(async {});
        tokio::task::yield_now().await;
        tokio::time::sleep(std::time::Duration::from_millis(20)).await;
        reg.register("k".to_string(), h);
        assert!(!reg.is_running("k"));
        assert_eq!(reg.len(), 1);
    });
}
