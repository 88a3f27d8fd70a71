pub mod add_manager;
pub mod add_ratelimited_proxy;
pub mod bulk_insert_proxies;
pub mod get_proxy;
pub mod modify_manager;
