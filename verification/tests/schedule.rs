use sq::model::{RenderTargetKey, ShaderKey, TextureKey};
use sq::schedule::{RenderSchedule, ScheduleError, ScheduleStep};

fn name(text: &str) -> String {
    text.to_string()
}

#[test]
fn builder_knows_only_the_screen() {
    let schedule = RenderSchedule::builder();
    assert!(schedule.steps().is_empty());
    assert!(schedule.pass_names().is_empty());
    assert_eq!(schedule.render_target(&name("screen")), Some(RenderTargetKey::Screen));
    assert_eq!(schedule.render_target(&name("fog")), None);
    assert_eq!(schedule.render_target(&name("")), None);
}

#[test]
fn with_render_target_registers_a_target() {
    let fog = RenderTargetKey::Texture(TextureKey { raw: 7 });
    let schedule = RenderSchedule::builder().with_render_target("fog", fog);
    assert_eq!(schedule.render_target(&name("fog")), Some(fog));
    assert_eq!(schedule.render_target(&name("screen")), Some(RenderTargetKey::Screen));
    assert!(schedule.steps().is_empty());
}

#[test]
fn with_render_target_overwrites_a_target() {
    let first = RenderTargetKey::Texture(TextureKey { raw: 7 });
    let second = RenderTargetKey::Texture(TextureKey { raw: 9 });
    let schedule = RenderSchedule::builder()
        .with_render_target("fog", first)
        .with_render_target("fog", second);
    assert_eq!(schedule.render_target(&name("fog")), Some(second));
}

#[test]
fn add_pass_appends_a_step_and_a_pass_name() {
    let schedule = RenderSchedule::builder().add_pass("main", "screen").unwrap();
    assert_eq!(
        schedule.steps(),
        &vec![ScheduleStep::Pass { render_pass: name("main"), target: name("screen") }]
    );
    assert_eq!(schedule.pass_names(), &vec![name("main")]);
}

#[test]
fn add_pass_to_an_undefined_target_fails() {
    let result = RenderSchedule::builder().add_pass("main", "undefined_target");
    match result {
        Err(error) => {
            assert_eq!(error, ScheduleError::RenderTargetNotFound(name("undefined_target")));
            assert_eq!(error.message(), "Render target 'undefined_target' not found");
        }
        Ok(_) => panic!("a pass into a target that was never registered was accepted"),
    }
}

#[test]
fn add_pass_succeeds_once_the_target_is_registered() {
    let fog = RenderTargetKey::Texture(TextureKey { raw: 3 });
    assert!(RenderSchedule::builder().add_pass("haze", "fog").is_err());
    let schedule = RenderSchedule::builder()
        .with_render_target("fog", fog)
        .add_pass("haze", "fog")
        .unwrap();
    assert_eq!(schedule.steps().len(), 1);
}

#[test]
fn pass_names_are_kept_once_in_order_of_first_use() {
    let schedule = RenderSchedule::builder()
        .add_pass("world", "screen")
        .unwrap()
        .add_pass("ui", "screen")
        .unwrap()
        .add_pass("world", "screen")
        .unwrap();
    assert_eq!(schedule.pass_names(), &vec![name("world"), name("ui")]);
    assert_eq!(schedule.steps().len(), 3);
}

#[test]
fn steps_keep_the_order_in_which_they_were_added() {
    let shader = ShaderKey { raw: 11 };
    let fog = RenderTargetKey::Texture(TextureKey { raw: 3 });
    let schedule = RenderSchedule::builder()
        .with_render_target("fog", fog)
        .add_pass("world", "fog")
        .unwrap()
        .add_process("fog", shader, "screen")
        .unwrap()
        .add_pass("ui", "screen")
        .unwrap();
    assert_eq!(
        schedule.steps(),
        &vec![
            ScheduleStep::Pass { render_pass: name("world"), target: name("fog") },
            ScheduleStep::Process { subject: name("fog"), shader, target: name("screen") },
            ScheduleStep::Pass { render_pass: name("ui"), target: name("screen") },
        ]
    );
    assert_eq!(schedule.pass_names(), &vec![name("world"), name("ui")]);
}

#[test]
fn add_process_with_an_unknown_subject_fails() {
    let shader = ShaderKey { raw: 11 };
    let result = RenderSchedule::builder().add_process("fog", shader, "screen");
    match result {
        Err(error) => {
            assert_eq!(error, ScheduleError::SubjectNotFound(name("fog")));
            assert_eq!(error.message(), "Subject render target 'fog' not found");
        }
        Ok(_) => panic!("a process step that reads an unknown target was accepted"),
    }
}

#[test]
fn add_process_with_an_unknown_target_fails() {
    let shader = ShaderKey { raw: 11 };
    let result = RenderSchedule::builder().add_process("screen", shader, "fog");
    match result {
        Err(error) => {
            assert_eq!(error, ScheduleError::ProcessTargetNotFound(name("fog")));
            assert_eq!(error.message(), "Target render target 'fog' not found");
        }
        Ok(_) => panic!("a process step that writes an unknown target was accepted"),
    }
}

#[test]
fn add_process_reports_the_subject_before_the_target() {
    let shader = ShaderKey { raw: 11 };
    let result = RenderSchedule::builder().add_process("mist", shader, "fog");
    assert_eq!(result.unwrap_err(), ScheduleError::SubjectNotFound(name("mist")));
}

#[test]
fn a_process_step_adds_no_pass_name() {
    let shader = ShaderKey { raw: 11 };
    let schedule = RenderSchedule::builder().add_process("screen", shader, "screen").unwrap();
    assert!(schedule.pass_names().is_empty());
    assert_eq!(schedule.steps().len(), 1);
}

#[test]
fn add_step_takes_a_step_as_a_value() {
    let step = ScheduleStep::Pass { render_pass: name("main"), target: name("screen") };
    let schedule = RenderSchedule::builder().add_step(step.clone()).unwrap();
    assert_eq!(schedule.steps(), &vec![step]);
    let dangling = ScheduleStep::Pass { render_pass: name("main"), target: name("nowhere") };
    assert_eq!(
        RenderSchedule::builder().add_step(dangling).unwrap_err(),
        ScheduleError::RenderTargetNotFound(name("nowhere"))
    );
}

#[test]
fn an_empty_name_is_a_name_like_any_other() {
    let result = RenderSchedule::builder().add_pass("", "");
    assert_eq!(result.unwrap_err(), ScheduleError::RenderTargetNotFound(name("")));
    let schedule = RenderSchedule::builder()
        .with_render_target("", RenderTargetKey::Screen)
        .add_pass("", "")
        .unwrap();
    assert_eq!(schedule.pass_names(), &vec![name("")]);
}
