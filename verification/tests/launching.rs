use startpe::geometry::Rect;
use startpe::paint::Draw;
use startpe::run_dialog::{is_dialog, reposition};
use startpe::run_window::{
    command_path, edit_key, hit, launched, layout, lighten, not_found, quoted, show_at,
    split_command, swallows_char, Act, Hover, State,
};
use startpe::startup::{
    hands_off, log_line, mode, relaunch_args, startup_message, syslaunch_path, Mode,
};
use startpe::syslaunch::{
    command_line, exe_name, is_service, job_id_arg, job_name, keep_polling, logon_processes, parse_args,
    privilege_answer, quote_cmdline, read_job, service_command, service_name, wbuf, write_job, Privilege,
    Process, Session,
};

fn v(s: &[&str]) -> Vec<String> {
    s.iter().map(|x| x.to_string()).collect()
}

#[test]
fn the_run_window_is_laid_out() {
    let l = layout(96);
    assert_eq!(l.icon, Rect { left: 16, top: 50, right: 48, bottom: 82 });
    assert_eq!(l.prompt, Rect { left: 60, top: 50, right: 374, bottom: 98 });
    assert_eq!(l.label, Rect { left: 16, top: 108, right: 374, bottom: 128 });
    assert_eq!(l.edit, Rect { left: 16, top: 130, right: 374, bottom: 156 });
    assert_eq!(l.ok, Rect { left: 102, top: 176, right: 186, bottom: 206 });
    assert_eq!(l.cancel, Rect { left: 196, top: 176, right: 280, bottom: 206 });
    assert_eq!(l.browse, Rect { left: 290, top: 176, right: 374, bottom: 206 });
    assert_eq!(l.close, Rect { left: 356, top: 0, right: 390, bottom: 34 });
    assert_eq!(l.height, 222);
    assert_eq!(show_at(1040, 96), (12, 806));
    assert_eq!(show_at(100, 96), (12, 12));
    assert_eq!(hit(357, 1, 96), Hover::Close);
    assert_eq!(hit(110, 180, 96), Hover::Accept);
    assert_eq!(hit(200, 180, 96), Hover::Cancel);
    assert_eq!(hit(300, 180, 96), Hover::Browse);
    assert_eq!(hit(190, 180, 96), Hover::Nothing);
    assert_eq!(reposition(Rect { left: 0, top: 100, right: 400, bottom: 300 }, 1040, 96), (12, 828));
    assert!(is_dialog(5, "#32770") && !is_dialog(5, "Edit") && !is_dialog(4, "#32770"));
}

#[test]
fn history_is_recalled() {
    let mut s = State::show(0, v(&["a", "b"]));
    assert_eq!(s.history_move(false).as_deref(), Some("b"));
    assert_eq!(s.history_move(false).as_deref(), Some("a"));
    assert_eq!(s.history_move(false).as_deref(), Some("a"));
    assert_eq!(s.history_move(true).as_deref(), Some("b"));
    assert_eq!(s.history_move(true).as_deref(), Some(""));
    assert_eq!(s.history_move(true).as_deref(), Some(""));
    assert_eq!(State::show(0, vec![]).history_move(false), None);
    assert_eq!(s.do_run("  a  ").as_deref(), Some("a"));
    assert_eq!(s.history, vec!["b", "a"]);
    assert_eq!(s.hist_pos, 2);
    assert_eq!(s.do_run(" \t"), None);
    assert_eq!(s.do_run("c d").as_deref(), Some("c d"));
    assert_eq!(s.history, vec!["b", "a", "c d"]);
}

#[test]
fn commands_are_split() {
    assert_eq!(split_command(" notepad  a b ", false), ("notepad".to_string(), "a b".to_string()));
    assert_eq!(split_command("\"C:\\a b\\c.exe\"  /x", false), ("C:\\a b\\c.exe".to_string(), "/x".to_string()));
    assert_eq!(split_command("C:\\a b\\c.exe", true), ("C:\\a b\\c.exe".to_string(), String::new()));
    assert_eq!(split_command("cmd", false), ("cmd".to_string(), String::new()));
    assert_eq!(split_command("\"open", false), ("\"open".to_string(), String::new()));
    assert_eq!(split_command("\"a b", false), ("\"a".to_string(), "b".to_string()));
    assert_eq!(split_command("", false), (String::new(), String::new()));
    assert_eq!(split_command("a\u{A0}b", false), ("a".to_string(), "b".to_string()));
    assert_eq!(split_command("a\u{2003} b", false), ("a".to_string(), "b".to_string()));
    assert_eq!(split_command("a\u{2003}b", true), ("a\u{2003}b".to_string(), String::new()));
    assert_eq!(command_path("  x y "), "x y");
    assert_eq!(split_command(&quoted("C:\\p q.exe"), false), ("C:\\p q.exe".to_string(), String::new()));
    assert!(launched(33) && !launched(32));
    assert_eq!(
        not_found("zz"),
        "StartPE cannot find 'zz'. Make sure you typed the name correctly, and then try again."
    );
}

#[test]
fn the_run_window_answers_input() {
    assert_eq!(edit_key(0x0D), Act::Run);
    assert_eq!(edit_key(0x1B), Act::Close);
    assert_eq!(edit_key(0x26), Act::Older);
    assert_eq!(edit_key(0x28), Act::Newer);
    assert_eq!(edit_key(0x41), Act::Pass);
    assert!(swallows_char(0x0D) && swallows_char(0x1B) && !swallows_char(0x41));
    let mut s = State::show(3, vec![]);
    assert_eq!(s.on_button_up(), Act::Nothing);
    let m = s.on_mouse_move(110, 180, 96);
    assert!(m.track && m.repaint);
    assert_eq!(s.on_button_up(), Act::Run);
    s.on_mouse_move(300, 180, 96);
    assert_eq!(s.on_button_up(), Act::Browse);
    s.on_mouse_move(200, 180, 96);
    assert_eq!(s.on_button_up(), Act::Close);
    assert!(s.on_mouse_leave());
    assert!(State::on_button_down(10, 10, 96) && !State::on_button_down(360, 10, 96) && !State::on_button_down(10, 34, 96));
}

#[test]
fn the_run_window_is_drawn() {
    assert_eq!(lighten(0x00D47800), 0x00EC9018);
    assert_eq!(lighten(0x00FFFFFF), 0x00FFFFFF);
    let mut s = State::show(3, vec![]);
    s.hover = Hover::Accept;
    let d = s.paint(390, 222, 96);
    assert!(matches!(d[4], Draw::Icon { icon: 3, x: 16, y: 50, size: 32 }));
    assert!(matches!(d[7], Draw::Frame { rect, .. } if rect == Rect { left: 15, top: 129, right: 375, bottom: 157 }));
    assert!(matches!(d[8], Draw::Round { fill: 0x00EC9018, .. }));
    assert_eq!(d.len(), 14);
    s.icon = 0;
    assert_eq!(s.paint(390, 222, 96).len(), 13);
}

#[test]
fn startup_modes() {
    assert_eq!(mode(&v(&["--RUN"])), Mode::Run);
    assert_eq!(mode(&v(&["x", "--sysinfo"])), Mode::SysInfo);
    assert_eq!(mode(&v(&["--sysinfo", "--run"])), Mode::Run);
    assert_eq!(mode(&v(&["--runx"])), Mode::Shell);
    assert!(hands_off(true, &v(&[]), false));
    assert!(!hands_off(true, &v(&["--From-Syslaunch"]), false));
    assert!(!hands_off(true, &v(&[]), true) && !hands_off(false, &v(&[]), false));
    assert_eq!(syslaunch_path("X:\\S\\startpe.exe").as_deref(), Some("X:\\S\\syslaunch.exe"));
    assert_eq!(syslaunch_path("startpe.exe").as_deref(), Some("syslaunch.exe"));
    assert_eq!(syslaunch_path("X:\\startpe.exe").as_deref(), Some("X:\\syslaunch.exe"));
    assert_eq!(syslaunch_path("X:startpe.exe").as_deref(), Some("X:syslaunch.exe"));
    assert_eq!(syslaunch_path("X:/S//startpe.exe").as_deref(), Some("X:/S\\syslaunch.exe"));
    assert_eq!(syslaunch_path("X:\\"), None);
    assert_eq!(syslaunch_path(""), None);
    assert_eq!(log_line("1.2", &startup_message(7)), "StartPE v1.2 starting (pid 7)");
}

#[test]
fn a_handed_off_shell_stays() {
    let told = relaunch_args("X:\\Start PE\\startpe.exe");
    assert_eq!(told, v(&["X:\\Start PE\\startpe.exe", "--from-syslaunch"]));
    let own = told[1..].to_vec();
    assert!(!hands_off(true, &own, false));
    assert_eq!(mode(&own), Mode::Shell);
    assert_eq!(parse_args(&told), (Session::Current, told.clone()));
    assert_eq!(command_line(&told), "\"X:\\Start PE\\startpe.exe\" --from-syslaunch");
}

#[test]
fn launcher_arguments() {
    let p = |s: &[&str]| parse_args(&v(s));
    assert_eq!(p(&[]), (Session::Current, vec![]));
    assert_eq!(p(&["--console", "a", "--session", "4"]), (Session::Console, v(&["a", "--session", "4"])));
    assert_eq!(p(&["--session", "4", "x y"]), (Session::Id(4), v(&["x y"])));
    assert_eq!(p(&["--console", "--session", "zz", "p"]), (Session::Current, v(&["p"])));
    assert_eq!(p(&["--console", "--session"]), (Session::Current, vec![]));
    assert_eq!(p(&["--CONSOLE"]), (Session::Current, v(&["--CONSOLE"])));
    assert!(is_service(&v(&["a", "--Service-Run"])) && !is_service(&v(&["a"])));
    assert_eq!(job_id_arg(&v(&["x", "--JOB", "12"])), Some(12));
    assert_eq!(job_id_arg(&v(&["--job", "x", "--job", "3"])), None);
    assert_eq!(job_id_arg(&v(&["--job"])), None);
    assert_eq!(job_id_arg(&v(&[])), None);
}

#[test]
fn command_lines_are_quoted() {
    assert_eq!(
        quote_cmdline(&v(&["X:\\Program Files\\s.exe", "--from", "\"al ready\"", "a b"])),
        "\"X:\\Program Files\\s.exe\" --from \"al ready\" \"a b\""
    );
    assert_eq!(quote_cmdline(&v(&[])), "");
    assert_eq!(quote_cmdline(&v(&["", ""])), " ");
    assert_eq!(command_line(&v(&[])), "cmd.exe");
    assert_eq!(command_line(&v(&["a b"])), "\"a b\"");
    assert_eq!(wbuf("ab"), vec![97, 98, 0]);
}

#[test]
fn jobs_survive_writing() {
    for (s, c) in [(0u32, "cmd.exe"), (7, "\"a b\" c"), (u32::MAX, ""), (3, "ü")] {
        assert_eq!(read_job(&write_job(s, c)), Some((s, c.to_string())));
    }
    assert_eq!(write_job(7, "x"), "7\nx\n");
    assert_eq!(read_job(" 8 \r\nq\r\nmore"), Some((8, "q".to_string())));
    assert_eq!(read_job("8"), None);
    assert_eq!(read_job("x\ny\n"), None);
    assert_eq!(job_name(5), "syslaunch-5.job");
    assert_eq!(service_name(5), "syslaunch_svc_5");
    assert_eq!(service_command("X:\\s.exe", 5), "\"X:\\s.exe\" --service-run --job 5");
    assert_ne!(job_name(5), job_name(55));
    assert_ne!(service_name(1), service_name(11));
    let own = v(&["X:\\s.exe", "--service-run", "--job", "5"]);
    assert!(is_service(&own) && job_id_arg(&own) == Some(5));
}

#[test]
fn the_logon_process_is_found() {
    let p = |pid, session, name: &str| Process { pid, session, name: name.to_string() };
    let list = vec![p(1, Some(2), "WinLogon.exe"), p(2, Some(3), "winlogon.exe"), p(3, None, "winlogon.exe"), p(4, Some(2), "x.exe"), p(5, Some(2), "winlogon.exe")];
    assert_eq!(logon_processes(&list, 2), vec![1, 5]);
    assert_eq!(exe_name(&vec![97, 98, 0, 99]), "ab");
    assert_eq!(exe_name(&vec![97, 98]), "");
    assert_eq!(privilege_answer(0), Privilege::Enabled);
    assert_eq!(privilege_answer(1300), Privilege::NotHeld);
    assert_eq!(privilege_answer(5), Privilege::Failed(5));
    assert!(keep_polling(99, true, false) && !keep_polling(100, true, false) && !keep_polling(1, false, false) && !keep_polling(1, true, true));
    assert_eq!(startpe::syslaunch::log_line("1.0", "hi"), "syslaunch v1.0: hi");
}
