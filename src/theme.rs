//! The colour theme and the language of the site.
use vstd::prelude::*;
use crate::text::same_text;

verus! {

/// The colour theme.
#[derive(Clone, Copy, PartialEq, Eq, Debug, Structural)]
pub enum AppTheme {
    Light,
    Dark,
}

/// The language of the interface.
#[derive(Clone, Copy, PartialEq, Eq, Debug, Structural)]
pub enum AppLocale {
    CN,
    EN,
}

impl Default for AppTheme {
    fn default() -> (r: AppTheme)
        ensures
            r == AppTheme::Light,
    {
        AppTheme::Light
    }
}

impl Default for AppLocale {
    fn default() -> (r: AppLocale)
        ensures
            r == AppLocale::CN,
    {
        AppLocale::CN
    }
}

impl AppTheme {
    pub fn as_str(&self) -> (r: &'static str)
        ensures
            r@ == (match *self {
                AppTheme::Light => "light"@,
                AppTheme::Dark => "dark"@,
            }),
    {
        match *self {
            AppTheme::Light => "light",
            AppTheme::Dark => "dark",
        }
    }

    /// The other theme, which the theme switcher turns to.
    pub fn toggled(&self) -> (r: AppTheme)
        ensures
            r != *self,
    {
        match *self {
            AppTheme::Light => AppTheme::Dark,
            AppTheme::Dark => AppTheme::Light,
        }
    }

    /// The theme that a stored name stands for: `dark`, else light.
    pub fn from_stored(s: &str) -> (r: AppTheme)
        ensures
            r == if s@ == "dark"@ {
                AppTheme::Dark
            } else {
                AppTheme::Light
            },
    {
        if same_text(s, "dark") {
            AppTheme::Dark
        } else {
            AppTheme::Light
        }
    }
}

impl AppLocale {
    pub fn as_str(&self) -> (r: &'static str)
        ensures
            r@ == (match *self {
                AppLocale::CN => "cn"@,
                AppLocale::EN => "en"@,
            }),
    {
        match *self {
            AppLocale::CN => "cn",
            AppLocale::EN => "en",
        }
    }

    /// The language tag of the locale.
    pub fn language_tag(&self) -> (r: &'static str)
        ensures
            r@ == (match *self {
                AppLocale::CN => "zh-CN"@,
                AppLocale::EN => "en-US"@,
            }),
    {
        match *self {
            AppLocale::CN => "zh-CN",
            AppLocale::EN => "en-US",
        }
    }

    /// The other locale, which the locale switcher turns to.
    pub fn toggled(&self) -> (r: AppLocale)
        ensures
            r != *self,
    {
        match *self {
            AppLocale::CN => AppLocale::EN,
            AppLocale::EN => AppLocale::CN,
        }
    }

    /// The locale that a stored name stands for: `en`, else Chinese.
    pub fn from_stored(s: &str) -> (r: AppLocale)
        ensures
            r == if s@ == "en"@ {
                AppLocale::EN
            } else {
                AppLocale::CN
            },
    {
        if same_text(s, "en") {
            AppLocale::EN
        } else {
            AppLocale::CN
        }
    }
}

} // verus!
