use tmzgua::cfg::Config;

#[test]
fn config_keeps_its_fields() {
    let c = Config::new(
        String::from("gateway-token"),
        700,
        701,
        String::from("/var/cache/seven"),
    );
    assert_eq!(c.token(), "gateway-token");
    assert_eq!(c.guild_id(), 700);
    assert_eq!(c.channel_id(), 701);
    assert_eq!(c.cache(), "/var/cache/seven");
}
