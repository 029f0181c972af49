//! A declarative UI core: application code describes the desired widget tree,
//! and the library reconciles that description against a retained tree,
//! updating only what changed, then drives layout, painting and input
//! dispatch against the retained structure.

pub mod app;
pub mod cache;
pub mod description;
pub mod dispatch;
pub mod events;
pub mod geom;
pub mod layout;
pub mod paint;
pub mod reconcile;
pub mod update;
pub mod user_data;
pub mod view;
pub mod view_model;
pub mod wellformed;
pub mod widgets;

pub use app::{AppInner, DirtySet};
pub use cache::WidgetCache;
pub use description::{Description, WidgetKey};
pub use events::Event;
pub use geom::{Position, Rect, Size};
pub use paint::{PaintCmd, Painter};
pub use user_data::{Press, UserData};
pub use view::{ViewLogic, ViewRefs, WidgetState, WidgetTree, WidgetTreeFactory};
pub use view_model::{ButtonViewModel, ViewModel};
pub use widgets::box_layout::{LayoutPolicy, Stack};
pub use widgets::button::{Button, ButtonWidget, Rgba};
pub use widgets::label::{Label, LabelWidget};
pub use widgets::WidgetBehavior;
