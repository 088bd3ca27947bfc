use wallie::renderers::{ChangePlan, KillPlan, Renderer, RendererError};

fn pic() -> String {
    "/pics/a.png".to_string()
}

#[test]
fn auto_resolves_from_the_process_list() {
    assert!(matches!(Renderer::Auto.resolve(true), Renderer::Swaybg));
    assert!(matches!(Renderer::Auto.resolve(false), Renderer::Awww));
    assert!(matches!(Renderer::Awww.resolve(true), Renderer::Awww));
    assert!(matches!(Renderer::Cosmic.resolve(false), Renderer::Cosmic));
}

#[test]
fn spawn_plans() {
    let c = Renderer::Awww.spawn_plan(&pic(), false).unwrap().unwrap();
    assert_eq!(c.program, "/bin/awww-daemon");
    assert!(c.args.is_empty());
    assert!(Renderer::Awww.spawn_plan(&pic(), true).unwrap().is_none());
    let c = Renderer::Swaybg.spawn_plan(&pic(), false).unwrap().unwrap();
    assert_eq!(c.program, "/bin/swaybg");
    assert_eq!(c.args, vec!["-i".to_string(), pic()]);
    assert!(Renderer::Other("/bin/x".to_string(), Vec::new()).spawn_plan(&pic(), false).unwrap().is_none());
    assert_eq!(Renderer::Cosmic.spawn_plan(&pic(), false).unwrap_err(), RendererError::CosmicUnsupported);
    assert_eq!(Renderer::Auto.spawn_plan(&pic(), false).unwrap_err(), RendererError::NotInitialized);
    assert_eq!(Renderer::Awww.watched_process(), Some("awww-daemon"));
    assert_eq!(Renderer::Swaybg.watched_process(), Some("swaybg"));
    assert_eq!(Renderer::Cosmic.watched_process(), None);
}

#[test]
fn change_plans() {
    match Renderer::Awww.change_plan(&pic()).unwrap() {
        ChangePlan::Run(c) => {
            assert_eq!(c.program, "/bin/awww");
            assert_eq!(c.args, vec!["img".to_string(), pic()]);
        }
        _ => panic!("awww runs a command"),
    }
    match Renderer::Swaybg.change_plan(&pic()).unwrap() {
        ChangePlan::SpawnAndKillOld(c) => {
            assert_eq!(c.program, "/bin/swaybg");
            assert_eq!(c.args, vec!["-i".to_string(), pic()]);
        }
        _ => panic!("swaybg replaces itself"),
    }
    let other = Renderer::Other("/usr/bin/feh".to_string(), vec!["--bg-fill".to_string()]);
    match other.change_plan(&pic()).unwrap() {
        ChangePlan::Run(c) => {
            assert_eq!(c.program, "/usr/bin/feh");
            assert_eq!(c.args, vec!["--bg-fill".to_string(), pic()]);
        }
        _ => panic!("other runs a command"),
    }
    assert_eq!(Renderer::Cosmic.change_plan(&pic()).unwrap_err().message(), "Cosmic integration is not yet implemented!");
    assert_eq!(Renderer::Auto.change_plan(&pic()).unwrap_err().message(), "Renderer not initialized!");
}

#[test]
fn kill_plans() {
    match Renderer::Awww.kill_plan().unwrap() {
        KillPlan::Run(c) => {
            assert_eq!(c.program, "/bin/awww");
            assert_eq!(c.args, vec!["kill".to_string()]);
        }
        _ => panic!(),
    }
    match Renderer::Swaybg.kill_plan().unwrap() {
        KillPlan::Run(c) => {
            assert_eq!(c.program, "/bin/pkill");
            assert_eq!(c.args, vec!["swaybg".to_string()]);
        }
        _ => panic!(),
    }
    match Renderer::Other("/bin/mpvpaper".to_string(), Vec::new()).kill_plan().unwrap() {
        KillPlan::Run(c) => {
            assert_eq!(c.program, "/bin/pkill");
            assert_eq!(c.args, vec!["mpvpaper".to_string()]);
        }
        _ => panic!(),
    }
    assert!(matches!(Renderer::Cosmic.kill_plan().unwrap(), KillPlan::Notice(_)));
    assert!(Renderer::Auto.kill_plan().is_err());
}

#[test]
fn auto_keeps_a_chosen_renderer() {
    if let Ok(mut system) = sysinfo::System::new_with_specifics(sysinfo::RefreshKind::nothing()) {
        assert!(matches!(Renderer::Awww.auto(&mut system), Renderer::Awww));
        let chosen = Renderer::Auto.auto(&mut system);
        assert!(matches!(chosen, Renderer::Awww | Renderer::Swaybg));
    }
}

#[test]
fn auto_without_a_swaybg_process_chooses_awww() {
    if let Ok(mut system) = sysinfo::System::new_with_specifics(sysinfo::RefreshKind::nothing()) {
        assert!(matches!(Renderer::Auto.auto(&mut system), Renderer::Awww));
    }
}
