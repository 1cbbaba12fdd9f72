pub use self::model::Model;
pub use self::model_updater::ModelUpdater;
pub use self::tree::ItemTree;
pub use self::view_item::ViewItem;

pub mod model;
pub mod model_updater;
pub mod traversal;
pub mod tree;
pub mod view_item;
