use fp::cli::Cli;
use fp::theme::variant::ThemeVariant;
use fp::theme::{Rgb, Theme};
use std::str::FromStr;

#[test]
fn light() {
    assert_eq!(
        ThemeVariant::from_str("light").unwrap(),
        ThemeVariant::Light
    );
    assert_eq!(
        ThemeVariant::from_str("  light").unwrap(),
        ThemeVariant::Light
    );
    assert_eq!(
        ThemeVariant::from_str("light  ").unwrap(),
        ThemeVariant::Light
    );
    assert_eq!(
        ThemeVariant::from_str("LIGHT").unwrap(),
        ThemeVariant::Light
    );
    assert_eq!(
        ThemeVariant::from_str(" LiGhT  ").unwrap(),
        ThemeVariant::Light
    );
}

#[test]
fn dark() {
    assert_eq!(ThemeVariant::from_str("dark").unwrap(), ThemeVariant::Dark);
    assert_eq!(
        ThemeVariant::from_str("  dark  ").unwrap(),
        ThemeVariant::Dark
    );
    assert_eq!(ThemeVariant::from_str("DARK").unwrap(), ThemeVariant::Dark);
    assert_eq!(ThemeVariant::from_str("").unwrap(), ThemeVariant::Dark);
    assert_eq!(
        ThemeVariant::from_str("whatever").unwrap(),
        ThemeVariant::Dark
    );
}

#[test]
fn the_default_variant_is_dark() {
    assert_eq!(ThemeVariant::default(), ThemeVariant::Dark);
    assert_eq!(Cli::default().theme, ThemeVariant::Dark);
}

#[test]
fn parse_trims_and_lowers() {
    assert_eq!(ThemeVariant::parse("\t\n Light \r\n"), ThemeVariant::Light);
    assert_eq!(ThemeVariant::parse("li ght"), ThemeVariant::Dark);
    assert_eq!(ThemeVariant::parse("lights"), ThemeVariant::Dark);
    assert_eq!(ThemeVariant::parse("ligh"), ThemeVariant::Dark);
    assert_eq!(ThemeVariant::parse("   "), ThemeVariant::Dark);
}

#[test]
fn named_takes_the_name_as_it_stands() {
    assert_eq!(ThemeVariant::named("light"), ThemeVariant::Light);
    assert_eq!(ThemeVariant::named("Light"), ThemeVariant::Dark);
    assert_eq!(ThemeVariant::named(" light"), ThemeVariant::Dark);
    assert_eq!(ThemeVariant::named("dark"), ThemeVariant::Dark);
}

#[test]
fn the_colours_of_the_themes() {
    let dark = Theme::enfocado_dark();
    assert_eq!(dark.variant, ThemeVariant::Dark);
    assert_eq!(dark.border, Rgb { red: 131, green: 199, blue: 70 });
    assert_eq!(dark.selected, Rgb { red: 59, green: 59, blue: 59 });
    assert_eq!(dark.project_path, Rgb { red: 119, green: 119, blue: 119 });

    let light = Theme::enfocado_light();
    assert_eq!(light.variant, ThemeVariant::Light);
    assert_eq!(light.border, Rgb { red: 0, green: 132, blue: 0 });
    assert_eq!(light.selected, Rgb { red: 205, green: 205, blue: 205 });
    assert_eq!(light.project_path, Rgb { red: 135, green: 135, blue: 135 });

    assert_eq!(Theme::of(ThemeVariant::Dark), dark);
    assert_eq!(Theme::of(ThemeVariant::Light), light);
}
