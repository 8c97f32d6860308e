//! The client's configuration: the active model, the known models, the
//! developer message, the display switches and the theme, with the rules
//! that keep a loaded configuration consistent with the models actually
//! available.

use crate::messages::{default_dev_message, default_dev_message_text};
use crate::utils::{ascii_lower, same_name_lists, sequence_equals};
use vstd::prelude::*;
use vstd::string::StringExecFns;

verus! {

/// The three message colors of the display theme.
pub struct Theme {
    pub system_color: String,
    pub user_color: String,
    pub assistant_color: String,
}

/// Mathematical image of a `Theme`.
pub ghost struct ThemeView {
    pub system_color: Seq<char>,
    pub user_color: Seq<char>,
    pub assistant_color: Seq<char>,
}

impl View for Theme {
    type V = ThemeView;

    open spec fn view(&self) -> ThemeView {
        ThemeView {
            system_color: self.system_color@,
            user_color: self.user_color@,
            assistant_color: self.assistant_color@,
        }
    }
}

/// The client's configuration.
pub struct ConfigTC {
    pub enable_streaming: bool,
    pub model: String,
    pub all_models: Vec<String>,
    pub dev_message: String,
    pub preview_md: bool,
    pub anthropic_enabled: bool,
    pub openai_enabled: bool,
    pub message_boxes_enabled: bool,
    pub theme: Theme,
}

/// Mathematical image of a `ConfigTC`.
pub ghost struct ConfigView {
    pub enable_streaming: bool,
    pub model: Seq<char>,
    pub all_models: Seq<Seq<char>>,
    pub dev_message: Seq<char>,
    pub preview_md: bool,
    pub anthropic_enabled: bool,
    pub openai_enabled: bool,
    pub message_boxes_enabled: bool,
    pub theme: ThemeView,
}

impl View for ConfigTC {
    type V = ConfigView;

    open spec fn view(&self) -> ConfigView {
        ConfigView {
            enable_streaming: self.enable_streaming,
            model: self.model@,
            all_models: self.all_models.deep_view(),
            dev_message: self.dev_message@,
            preview_md: self.preview_md,
            anthropic_enabled: self.anthropic_enabled,
            openai_enabled: self.openai_enabled,
            message_boxes_enabled: self.message_boxes_enabled,
            theme: self.theme@,
        }
    }
}

pub fn default_system_color() -> (r: String)
    ensures
        r@ == "yellow"@,
{
    String::from_str("yellow")
}

pub fn default_user_color() -> (r: String)
    ensures
        r@ == "green"@,
{
    String::from_str("green")
}

pub fn default_assistant_color() -> (r: String)
    ensures
        r@ == "blue"@,
{
    String::from_str("blue")
}

pub fn default_theme() -> (r: Theme)
    ensures
        r@.system_color == "yellow"@,
        r@.user_color == "green"@,
        r@.assistant_color == "blue"@,
{
    Theme {
        system_color: default_system_color(),
        user_color: default_user_color(),
        assistant_color: default_assistant_color(),
    }
}

impl ConfigTC {
    /// The configuration used before any file is read: the first known
    /// model (or a placeholder when none is known yet), everything else
    /// off. The embedding binary turns the provider flags on from its
    /// environment before use.
    pub fn default(all_models: Vec<String>) -> (r: ConfigTC)
        ensures
            all_models.deep_view().len() > 0 ==> r@.model == all_models.deep_view()[0],
            all_models.deep_view().len() == 0 ==> r@.model == "default_model_name"@,
            r@.all_models == all_models.deep_view(),
            r@.dev_message == default_dev_message_text(),
            !r@.enable_streaming,
            !r@.preview_md,
            !r@.anthropic_enabled,
            !r@.openai_enabled,
            !r@.message_boxes_enabled,
            r@.theme.system_color == "yellow"@,
            r@.theme.user_color == "green"@,
            r@.theme.assistant_color == "blue"@,
    {
        let default_model = if all_models.len() > 0 {
            proof {
                assert(all_models.deep_view()[0] == all_models[0]@);
            }
            all_models[0].clone()
        } else {
            String::from_str("default_model_name")
        };
        ConfigTC {
            enable_streaming: false,
            model: default_model,
            all_models,
            dev_message: String::from_str(default_dev_message()),
            preview_md: false,
            anthropic_enabled: false,
            openai_enabled: false,
            message_boxes_enabled: false,
            theme: default_theme(),
        }
    }
}

/// Brings a loaded configuration in line with the models actually
/// available: refreshes a stale model list (which must then be written
/// back) and falls back to the first available model when the selected
/// one is gone. Returns (list was refreshed, model was replaced).
pub fn reconcile_config(config: &mut ConfigTC, all_models: &Vec<String>) -> (r: (bool, bool))
    requires
        all_models.deep_view().len() > 0,
    ensures
        r.0 == !same_name_lists(old(config)@.all_models, all_models.deep_view()),
        final(config)@.all_models == if r.0 {
            all_models.deep_view()
        } else {
            old(config)@.all_models
        },
        r.1 == !all_models.deep_view().contains(old(config)@.model),
        final(config)@.model == if r.1 {
            all_models.deep_view()[0]
        } else {
            old(config)@.model
        },
        final(config)@.dev_message == old(config)@.dev_message,
        final(config)@.enable_streaming == old(config)@.enable_streaming,
        final(config)@.preview_md == old(config)@.preview_md,
        final(config)@.message_boxes_enabled == old(config)@.message_boxes_enabled,
        final(config)@.anthropic_enabled == old(config)@.anthropic_enabled,
        final(config)@.openai_enabled == old(config)@.openai_enabled,
        final(config)@.theme == old(config)@.theme,
{
    let mut refreshed = false;
    if !sequence_equals(&config.all_models, all_models) {
        config.all_models = copy_names(all_models);
        refreshed = true;
    }
    let mut replaced = false;
    if !holds_name(all_models, &config.model) {
        proof {
            assert(all_models.deep_view()[0] == all_models[0]@);
        }
        config.model = all_models[0].clone();
        replaced = true;
    }
    (refreshed, replaced)
}

/// A fresh copy of a name list.
fn copy_names(src: &Vec<String>) -> (r: Vec<String>)
    ensures
        r.deep_view() == src.deep_view(),
{
    let mut r: Vec<String> = Vec::new();
    let n = src.len();
    let mut i: usize = 0;
    while i < n
        invariant
            n == src.len(),
            i <= n,
            r.deep_view() =~= src.deep_view().take(i as int),
        decreases n - i,
    {
        let ghost before = r.deep_view();
        r.push(src[i].clone());
        proof {
            assert(r.deep_view() =~= before.push(src.deep_view()[i as int]));
            assert(r.deep_view() =~= src.deep_view().take(i + 1 as int));
        }
        i = i + 1;
    }
    proof {
        assert(src.deep_view().take(n as int) =~= src.deep_view());
    }
    r
}

/// Whether `x` occurs in `v`.
fn holds_name(v: &Vec<String>, x: &String) -> (r: bool)
    ensures
        r == v.deep_view().contains(x@),
{
    let n = v.len();
    let mut j: usize = 0;
    while j < n
        invariant
            n == v.len(),
            j <= n,
            forall|k: int| 0 <= k < j ==> v.deep_view()[k] != x@,
        decreases n - j,
    {
        let candidate = &v[j];
        if *candidate == *x {
            proof {
                assert(v.deep_view()[j as int] == x@);
            }
            return true;
        }
        proof {
            assert(v.deep_view()[j as int] == v[j as int]@);
        }
        j = j + 1;
    }
    proof {
        assert(!v.deep_view().contains(x@));
    }
    false
}

/// Message boxes cannot stream and cannot render markdown: turning them
/// on turns the other two off.
pub fn enforce_message_boxes(config: &mut ConfigTC)
    ensures
        old(config)@.message_boxes_enabled ==> !final(config)@.enable_streaming && !final(
            config)@.preview_md,
        !old(config)@.message_boxes_enabled ==> final(config)@ == old(config)@,
        final(config)@.model == old(config)@.model,
        final(config)@.all_models == old(config)@.all_models,
        final(config)@.dev_message == old(config)@.dev_message,
        final(config)@.message_boxes_enabled == old(config)@.message_boxes_enabled,
        final(config)@.theme == old(config)@.theme,
{
    if config.message_boxes_enabled {
        config.enable_streaming = false;
        config.preview_md = false;
    }
}

/// The color names a theme may use.
pub open spec fn color_names() -> Seq<Seq<char>> {
    seq![
        "red"@,
        "green"@,
        "yellow"@,
        "blue"@,
        "magenta"@,
        "cyan"@,
        "white"@,
        "black"@,
        "dark_grey"@,
        "light_grey"@,
        "dark_red"@,
        "dark_green"@,
        "dark_yellow"@,
        "dark_blue"@,
        "dark_magenta"@,
        "dark_cyan"@,
    ]
}

/// The color names a theme may use, in menu order.
pub fn available_colors() -> (r: Vec<String>)
    ensures
        r.deep_view() == color_names(),
{
    let mut v: Vec<String> = Vec::new();
    v.push(String::from_str("red"));
    v.push(String::from_str("green"));
    v.push(String::from_str("yellow"));
    v.push(String::from_str("blue"));
    v.push(String::from_str("magenta"));
    v.push(String::from_str("cyan"));
    v.push(String::from_str("white"));
    v.push(String::from_str("black"));
    v.push(String::from_str("dark_grey"));
    v.push(String::from_str("light_grey"));
    v.push(String::from_str("dark_red"));
    v.push(String::from_str("dark_green"));
    v.push(String::from_str("dark_yellow"));
    v.push(String::from_str("dark_blue"));
    v.push(String::from_str("dark_magenta"));
    v.push(String::from_str("dark_cyan"));
    proof {
        assert(v.deep_view() =~= color_names());
    }
    v
}

/// The ASCII-lowered form of a text.
pub open spec fn lowered(s: Seq<char>) -> Seq<char> {
    Seq::new(s.len(), |i: int| ascii_lower(s[i]))
}

/// Whether a reply names an available color, letter case aside.
pub fn is_valid_color(input: &str) -> (r: bool)
    ensures
        r == color_names().contains(lowered(input@)),
{
    let low = lower_string(input);
    let colors = available_colors();
    let n = colors.len();
    let mut i: usize = 0;
    while i < n
        invariant
            n == colors.len(),
            colors.deep_view() == color_names(),
            i <= n,
            low@ == lowered(input@),
            forall|k: int| 0 <= k < i ==> color_names()[k] != lowered(input@),
        decreases n - i,
    {
        let candidate = &colors[i];
        if *candidate == low {
            proof {
                assert(color_names()[i as int] == lowered(input@));
            }
            return true;
        }
        proof {
            assert(colors.deep_view()[i as int] == colors[i as int]@);
        }
        i = i + 1;
    }
    proof {
        assert(!color_names().contains(lowered(input@)));
    }
    false
}

/// ASCII-lowers a whole text.
fn lower_string(s: &str) -> (r: String)
    ensures
        r@ == lowered(s@),
{
    let cs = crate::json::to_chars(s);
    let n = cs.len();
    let mut out: Vec<char> = Vec::new();
    let mut i: usize = 0;
    while i < n
        invariant
            n == cs@.len(),
            cs@ == s@,
            i <= n,
            out@.len() == i,
            forall|k: int| 0 <= k < i ==> out@[k] == ascii_lower(s@[k]),
        decreases n - i,
    {
        let c = cs[i];
        let u = c as u32;
        let low = if 65 <= u && u <= 90 {
            ((u + 32) as u8) as char
        } else {
            c
        };
        proof {
            assert(low == ascii_lower(s@[i as int]));
        }
        out.push(low);
        i = i + 1;
    }
    proof {
        assert(out@ =~= lowered(s@));
    }
    crate::json::chars_to_string(&out)
}

} // verus!
