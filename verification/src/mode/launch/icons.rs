//! The icons of entries, each of which is read at most once.

use crate::mode::launch::entry::StaticImage;
use crate::paths::{extension, extension_of};
use crate::text::{characters, string_of};
use once_map::{OnceMap, RandomState};
use std::sync::Arc;
use vstd::prelude::*;

verus! {

/// `once_map::OnceMap`, of which only its own functions see the inside.
#[verifier::external_type_specification]
#[verifier::external_body]
#[verifier::reject_recursive_types(K)]
#[verifier::reject_recursive_types(V)]
#[verifier::reject_recursive_types(S)]
pub struct ExOnceMap<K, V, S>(once_map::OnceMap<K, V, S>);

/// The hasher of a `OnceMap`.
#[verifier::external_type_specification]
#[verifier::external_body]
pub struct ExOnceMapRandomState(once_map::RandomState);

/// What became of an icon.
pub enum RenderedIcon {
    Loaded(StaticImage),
    Failed,
}

/// What a map of icons holds.
pub uninterp spec fn rendered_icons(map: OnceMap<String, Box<RenderedIcon>, RandomState>) -> Map<
    Seq<char>,
    RenderedIcon,
>;

/// `OnceMap::new`: a map that holds nothing.
#[verifier::external_body]
fn new_map() -> (res: OnceMap<String, Box<RenderedIcon>, RandomState>)
    ensures
        (rendered_icons(res) == Map::<Seq<char>, RenderedIcon>::empty()),
{
    OnceMap::new()
}

/// `OnceMap::get`: the value of a key, if the key is there.
#[verifier::external_body]
fn map_get<'a>(
    map: &'a OnceMap<String, Box<RenderedIcon>, RandomState>,
    key: &String,
) -> (res: Option<&'a RenderedIcon>)
    ensures
        res is Some == rendered_icons(*map).dom().contains(key@),
        res is Some ==> *res->0 == rendered_icons(*map)[key@],
{
    map.get(key)
}

/// `OnceMap::insert`: gives a value to a key that has none; one that has a value keeps it.
#[verifier::external_body]
fn map_insert(
    map: &mut OnceMap<String, Box<RenderedIcon>, RandomState>,
    key: String,
    value: RenderedIcon,
)
    ensures
        rendered_icons(*final(map)) == kept_or_inserted(rendered_icons(*old(map)), key@, value),
{
    map.insert(key, |_| Box::new(value));
}

/// The icons after one was given a value, unless it had one.
pub open spec fn kept_or_inserted(
    icons: Map<Seq<char>, RenderedIcon>,
    key: Seq<char>,
    value: RenderedIcon,
) -> Map<Seq<char>, RenderedIcon> {
    if icons.dom().contains(key) {
        icons
    } else {
        icons.insert(key, value)
    }
}

/// The icons that have been read, or could not be.
pub struct Icons {
    rendered: OnceMap<String, Box<RenderedIcon>, RandomState>,
}

impl View for Icons {
    type V = Map<Seq<char>, RenderedIcon>;

    closed spec fn view(&self) -> Map<Seq<char>, RenderedIcon> {
        rendered_icons(self.rendered)
    }
}

/// What is to be found out next about an icon.
pub enum IconStep {
    /// Nothing: this is the image, if there is one.
    Finished(Option<StaticImage>),
    /// Whether there is a file at the path.
    CheckExists(String),
    /// Where the theme has the icon, for the size and the scale; where no theme is named, it is the
    /// one that is used by default.
    LookUp { name: String, size: u32, scale: u32, theme: Option<&'static str> },
    /// The content of the file.
    Read(String),
}

pub const ICON_SIZE: u32 = 32;

pub const ICON_SCALE: u32 = 1;

/// The path is absolute.
pub open spec fn is_absolute(icon: Seq<char>) -> bool {
    icon.len() > 0 && icon[0] == '/'
}

/// The image in what was read of a file; there is none in an empty file.
pub open spec fn holds_image(content: Option<Vec<u8>>) -> bool {
    content is Some && content->0@.len() > 0
}

/// The extension of a path that is text; empty where it has none.
pub open spec fn extension_text(path: Seq<char>) -> Seq<char> {
    match extension(path) {
        Some(e) => e,
        None => Seq::empty(),
    }
}

/// The image of a file.
pub open spec fn is_image_of(image: StaticImage, path: Seq<char>, content: Seq<u8>) -> bool {
    image.data@ == content && image.extension@ == extension_text(path)
}

/// A copy of an image.
pub fn copy_image(image: &StaticImage) -> (res: StaticImage)
    ensures
        res == *image,
{
    StaticImage { data: image.data.clone(), extension: image.extension.clone() }
}

impl Icons {
    pub fn new() -> (res: Self)
        ensures
            (res@ == Map::<Seq<char>, RenderedIcon>::empty()),
    {
        Icons { rendered: new_map() }
    }

    /// Whether the icon was read before, or could not be.
    pub fn is_icon_cached(&self, icon: &String) -> (res: bool)
        ensures
            res == self@.dom().contains(icon@),
    {
        map_get(&self.rendered, icon).is_some()
    }

    /// The image of an icon that was read before.
    pub fn cached_icon(&self, icon: &String) -> (res: Option<StaticImage>)
        ensures
            res == if self@.dom().contains(icon@) && self@[icon@] is Loaded {
                Some(self@[icon@]->Loaded_0)
            } else {
                None::<StaticImage>
            },
    {
        match map_get(&self.rendered, icon) {
            Some(RenderedIcon::Loaded(image)) => Some(copy_image(image)),
            _ => None,
        }
    }

    /// Starts to load an icon: what was tried before is known, an absolute path is looked at, and
    /// anything else is looked up by its name.
    pub fn load_icon(&self, icon: &String) -> (res: IconStep)
        ensures
            if self@.dom().contains(icon@) {
                res == IconStep::Finished(
                    match self@[icon@] {
                        RenderedIcon::Loaded(image) => Some(image),
                        RenderedIcon::Failed => None,
                    },
                )
            } else if is_absolute(icon@) {
                res == IconStep::CheckExists(*icon)
            } else {
                res == looking_up(*icon)
            },
    {
        if self.is_icon_cached(icon) {
            return IconStep::Finished(self.cached_icon(icon));
        }
        let chars = characters(icon.as_str());
        if chars.len() > 0 && chars[0] == '/' {
            IconStep::CheckExists(icon.clone())
        } else {
            IconStep::LookUp {
                name: icon.clone(),
                size: ICON_SIZE,
                scale: ICON_SCALE,
                theme: None,
            }
        }
    }

    /// Goes on after it was checked whether there is a file at the path that the icon names: a
    /// file that is there is read, and otherwise the icon is looked up by its name.
    pub fn path_checked(&self, icon: &String, present: bool) -> (res: IconStep)
        ensures
            res == if present {
                IconStep::Read(*icon)
            } else {
                looking_up(*icon)
            },
    {
        if present {
            IconStep::Read(icon.clone())
        } else {
            IconStep::LookUp {
                name: icon.clone(),
                size: ICON_SIZE,
                scale: ICON_SCALE,
                theme: None,
            }
        }
    }

    /// Goes on after the icon was looked up: what was found is read. An icon that was not found is
    /// remembered as failed.
    pub fn looked_up(&mut self, icon: String, found: Option<String>) -> (res: IconStep)
        ensures
            res == match found {
                Some(path) => IconStep::Read(path),
                None => IconStep::Finished(None),
            },
            final(self)@ == match found {
                Some(_) => old(self)@,
                None => kept_or_inserted(old(self)@, icon@, RenderedIcon::Failed),
            },
    {
        match found {
            Some(path) => IconStep::Read(path),
            None => {
                map_insert(&mut self.rendered, icon, RenderedIcon::Failed);
                IconStep::Finished(None)
            },
        }
    }

    /// Goes on after the file at `path` was read, or could not be: what it holds is the image, and
    /// is remembered. An icon whose file holds nothing is remembered as failed.
    pub fn content_read(
        &mut self,
        icon: String,
        path: &String,
        content: Option<Vec<u8>>,
    ) -> (res: Option<StaticImage>)
        ensures
            res is Some == holds_image(content),
            res is Some ==> is_image_of(res->0, path@, content->0@),
            final(self)@ == kept_or_inserted(
                old(self)@,
                icon@,
                match res {
                    Some(image) => RenderedIcon::Loaded(image),
                    None => RenderedIcon::Failed,
                },
            ),
    {
        match content {
            Some(data) => {
                if data.len() > 0 {
                    let extension = match extension_of(&characters(path.as_str())) {
                        Some(e) => string_of(&e),
                        None => {
                            let nothing = String::new();
                            assert(nothing@ =~= Seq::empty());
                            nothing
                        },
                    };
                    let image = StaticImage { data: Arc::new(data), extension };
                    map_insert(
                        &mut self.rendered,
                        icon,
                        RenderedIcon::Loaded(copy_image(&image)),
                    );
                    Some(image)
                } else {
                    map_insert(&mut self.rendered, icon, RenderedIcon::Failed);
                    None
                }
            },
            None => {
                map_insert(&mut self.rendered, icon, RenderedIcon::Failed);
                None
            },
        }
    }
}

/// The icon is looked up in the theme.
pub open spec fn looking_up(icon: String) -> IconStep {
    IconStep::LookUp { name: icon, size: ICON_SIZE, scale: ICON_SCALE, theme: None }
}

/// What became of an icon is never forgotten and never changes, whatever is loaded after it; so
/// an icon that failed once fails at once from then on.
pub proof fn law_icons_are_settled(
    icons: Map<Seq<char>, RenderedIcon>,
    icon: Seq<char>,
    other: Seq<char>,
    value: RenderedIcon,
)
    requires
        icons.dom().contains(icon),
    ensures
        kept_or_inserted(icons, other, value).dom().contains(icon),
        kept_or_inserted(icons, other, value)[icon] == icons[icon],
{
}

/// Once a load has come to its end, the icon is known.
pub proof fn law_loaded_icon_is_cached(
    icons: Map<Seq<char>, RenderedIcon>,
    icon: Seq<char>,
    value: RenderedIcon,
)
    ensures
        kept_or_inserted(icons, icon, value).dom().contains(icon),
        !icons.dom().contains(icon) ==> kept_or_inserted(icons, icon, value)[icon] == value,
{
}

} // verus!
