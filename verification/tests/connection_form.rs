use dbui_ui::connection_form::{
    mask, render_field_text, Choice, ConnectionConfig, ConnectionForm, Driver, Environment, Field, FieldCaret,
    FieldText, FormAction, FormKey, TlsMode, TlsOffer,
};
use dbui_ui::domain::ConnectionId;
use dbui_ui::keys::Keystroke;

fn engine(kind: u64, label: &str, default_port: u16, user: &str) -> Driver {
    Driver {
        kind,
        label: label.to_string(),
        default_port,
        default_username: user.to_string(),
    }
}

fn postgres() -> Driver {
    engine(0, "PostgreSQL", 5432, "postgres")
}

fn mysql() -> Driver {
    engine(1, "MySQL", 3306, "root")
}

fn config() -> ConnectionConfig {
    ConnectionConfig {
        id: ConnectionId(7),
        driver: postgres(),
        name: "New PostgreSQL".to_string(),
        host: "localhost".to_string(),
        port: 5432,
        username: "postgres".to_string(),
        password: " s3cret ".to_string(),
        database: "shop".to_string(),
        tls: TlsMode(0),
        environment: Environment(2),
    }
}

fn caret(selection: std::ops::Range<usize>, cursor: usize) -> FieldCaret {
    FieldCaret { selection, cursor }
}

fn typed(form: &mut ConnectionForm, field: Field) -> String {
    form.focus(field);
    let at = form.focused;
    form.field_mut(at).unwrap().text().to_string()
}

#[test]
fn an_untouched_form_gives_the_connection_back() {
    let form = ConnectionForm::editing(config());
    assert!(form.is_editing());
    let saved = form.to_config();
    assert_eq!(saved.id, ConnectionId(7));
    assert_eq!(saved.name, "New PostgreSQL");
    assert_eq!(saved.port, 5432);
    assert_eq!(saved.password, " s3cret ");
    assert_eq!(saved.database, "shop");
    assert_eq!(saved.tls, TlsMode(0));
    assert_eq!(saved.environment, Environment(2));
    assert!(form.fields.iter().all(|field| !field.multiline && field.selection.is_none()));
    assert_eq!(form.driver().kind, 0);
}

#[test]
fn a_saved_form_is_trimmed_and_a_bad_port_is_the_default() {
    let mut form = ConnectionForm::new(config());
    assert!(!form.is_editing());
    form.field_mut(0).unwrap().set_text("  prod  ");
    form.field_mut(2).unwrap().set_text("99999");
    let saved = form.to_config();
    assert_eq!(saved.name, "prod");
    assert_eq!(saved.port, 5432);
    form.field_mut(2).unwrap().set_text(" 6543 ");
    assert_eq!(form.to_config().port, 6543);
    assert!(form.field_mut(6).is_none());
}

#[test]
fn switching_engines_moves_only_what_was_the_old_ones_own() {
    let mut form = ConnectionForm::new(config());
    form.set_driver(mysql());
    assert_eq!(typed(&mut form, Field::Port), "3306");
    assert_eq!(typed(&mut form, Field::Username), "root");
    assert_eq!(typed(&mut form, Field::Name), "New MySQL");
    assert!(form.fields.iter().all(|field| field.selection.is_none()));

    let mut form = ConnectionForm::new(config());
    form.field_mut(1).unwrap().select_all();
    form.field_mut(2).unwrap().select_all();
    form.set_driver(mysql());
    assert_eq!(form.fields[1].selection, Some(0..9), "another field is left alone");
    assert_eq!(form.fields[2].selection, None, "a default of the new engine is not selected");

    let mut form = ConnectionForm::new(config());
    form.field_mut(2).unwrap().set_text("6432");
    form.field_mut(0).unwrap().set_text("prod");
    form.set_driver(mysql());
    assert_eq!(typed(&mut form, Field::Port), "6432");
    assert_eq!(typed(&mut form, Field::Name), "prod");
    assert_eq!(typed(&mut form, Field::Host), "localhost");
}

#[test]
fn tab_goes_around_the_form_and_back() {
    let mut form = ConnectionForm::new(config());
    let tab = Keystroke::plain("tab".to_string());
    let mut back = Keystroke::plain("tab".to_string());
    back.shift = true;
    assert_eq!(form.handle_key(&back), FormKey::Moved);
    assert_eq!(form.focused_action(), FormAction::Save);
    assert_eq!(form.handle_key(&Keystroke::plain("a".to_string())), FormKey::NotTaken);
    form.handle_key(&tab);
    assert_eq!(form.focused_action(), FormAction::Field);
    assert_eq!(form.handle_key(&Keystroke::plain("a".to_string())), FormKey::Field(0));
    form.focus_action(FormAction::Test);
    assert_eq!(form.focused_action(), FormAction::Test);
    form.focus_action(FormAction::Cancel);
    assert_eq!(form.focused_action(), FormAction::Cancel);
}

#[test]
fn a_secret_is_drawn_as_bullets() {
    assert_eq!(mask("päß", true), "•••");
    assert_eq!(mask("päß", false), "päß");
    assert!(Field::Password.is_secret() && !Field::Host.is_secret());
    match render_field_text("päß", &caret(1..3, 0), true) {
        FieldText::Selected { before, selected, after } => {
            assert_eq!((before.as_str(), selected.as_str(), after.as_str()), ("•", "•", "•"));
        }
        FieldText::Caret { .. } => panic!("something is selected"),
    }
    match render_field_text("päß", &caret(0..0, 3), false) {
        FieldText::Caret { before, after } => assert_eq!((before.as_str(), after.as_str()), ("pä", "ß")),
        FieldText::Selected { .. } => panic!("nothing is selected"),
    }
}

#[test]
fn the_form_draws_its_fields_in_tab_order() {
    let mut form = ConnectionForm::editing(config());
    form.set_message(false, "refused".to_string());
    form.set_tls(TlsMode(1));
    assert_eq!(form.tls(), TlsMode(1));
    let carets: Vec<FieldCaret> = (0..6).map(|_| caret(0..0, 1)).collect();
    let view = form.render_modal(
        &carets,
        &vec![postgres(), mysql()],
        &vec![
            TlsOffer { mode: TlsMode(0), label: "Prefer".to_string() },
            TlsOffer { mode: TlsMode(1), label: "Require".to_string() },
        ],
    );
    let labels: Vec<&str> = view.rows.iter().map(|row| row.label.as_str()).collect();
    assert_eq!(labels, vec!["Name", "Host", "Port", "User", "Password", "Database"]);
    let order: Vec<&str> = Field::order().iter().map(|field| field.label()).collect();
    assert_eq!(labels, order);
    let choices = |list: &[Choice]| -> Vec<(String, bool)> {
        list.iter().map(|choice| (choice.label.clone(), choice.chosen)).collect()
    };
    assert_eq!(
        choices(&view.engines),
        vec![("PostgreSQL".to_string(), true), ("MySQL".to_string(), false)]
    );
    assert_eq!(
        choices(&view.tls_modes),
        vec![("Prefer".to_string(), false), ("Require".to_string(), true)]
    );
    assert_eq!(view.caption, "Passwords are kept for this session only and are never written to disk.");
    assert_eq!((view.save.label.as_str(), view.save.focused), ("Save & Connect", false));
    assert_eq!((view.test.label.as_str(), view.cancel.label.as_str()), ("Test", "Cancel"));
    assert_eq!(view.message.unwrap().0, "refused");
    assert_eq!(view.removes, Some((ConnectionId(7), "Remove".to_string())));
    let drawn: Vec<String> = view
        .rows
        .iter()
        .map(|row| match &row.text {
            FieldText::Caret { before, after } => format!("{before}|{after}"),
            FieldText::Selected { .. } => panic!("nothing is selected"),
        })
        .collect();
    assert_eq!(
        drawn,
        vec!["N|ew PostgreSQL", "l|ocalhost", "5|432", "p|ostgres", "•|•••••••", "s|hop"]
    );
}
