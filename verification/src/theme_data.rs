//! The themes that come with the program, as TOML.

use vstd::prelude::*;

verus! {

/// The name of the theme that is used where none is chosen.
pub const DEFAULT_THEME: &'static str = "catppuccin_mocha";

/// The Mocha flavour of Catppuccin.
pub const CATPPUCCIN_MOCHA: &'static str = "
attribute = 'yellow'
comment = { fg = 'overlay2', modifiers = ['italic'] }
constant = 'peach'
'constant.character.escape' = 'pink'
constructor = 'sapphire'
diagnostic = { underline = { style = 'curl' } }
error = 'red'
function = 'blue'
'function.macro' = 'mauve'
hint = 'teal'
info = 'sky'
keyword = 'mauve'
label = 'sapphire'
namespace = { fg = 'yellow', modifiers = ['italic'] }
operator = 'sky'
punctuation = 'overlay2'
'punctuation.special' = 'sky'
special = 'blue'
string = 'green'
'string.regexp' = 'pink'
'string.special' = 'blue'
tag = 'blue'
type = 'yellow'
'type.enum.variant' = 'teal'
'ui.background' = { fg = 'text', bg = 'base' }
'ui.cursor' = { fg = 'base', bg = 'secondary_cursor' }
'ui.cursor.match' = { fg = 'peach', modifiers = ['bold'] }
'ui.cursorline.primary' = { bg = 'cursorline' }
'ui.linenr' = { fg = 'surface1' }
'ui.linenr.selected' = { fg = 'lavender' }
'ui.menu' = { fg = 'overlay2', bg = 'surface0' }
'ui.menu.selected' = { fg = 'text', bg = 'surface1', modifiers = ['bold'] }
'ui.popup' = { fg = 'text', bg = 'surface0' }
'ui.selection' = { bg = 'surface1' }
'ui.statusline' = { fg = 'subtext1', bg = 'mantle' }
'ui.statusline.inactive' = { fg = 'surface2', bg = 'mantle' }
'ui.text' = 'text'
'ui.text.focus' = { fg = 'text', bg = 'surface0', modifiers = ['bold'] }
'ui.virtual' = 'overlay0'
'ui.virtual.ruler' = { bg = 'surface0' }
variable = 'text'
'variable.builtin' = 'red'
'variable.other.member' = 'blue'
'variable.parameter' = { fg = 'maroon', modifiers = ['italic'] }
warning = 'yellow'

[palette]
rosewater = '#f5e0dc'
flamingo = '#f2cdcd'
pink = '#f5c2e7'
mauve = '#cba6f7'
red = '#f38ba8'
maroon = '#eba0ac'
peach = '#fab387'
yellow = '#f9e2af'
green = '#a6e3a1'
teal = '#94e2d5'
sky = '#89dceb'
sapphire = '#74c7ec'
blue = '#89b4fa'
lavender = '#b4befe'
text = '#cdd6f4'
subtext1 = '#bac2de'
subtext0 = '#a6adc8'
overlay2 = '#9399b2'
overlay1 = '#7f849c'
overlay0 = '#6c7086'
surface2 = '#585b70'
surface1 = '#45475a'
surface0 = '#313244'
base = '#1e1e2e'
mantle = '#181825'
crust = '#11111b'
cursorline = '#2a2b3c'
secondary_cursor = '#b5a6a8'
";

} // verus!
