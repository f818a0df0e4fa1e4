use fever::skycache::SkyboxCache;
use fever::world::TextureQuality;

#[test]
fn cache_keeps_one_skybox_per_source_and_quality() {
    let mut c: SkyboxCache<&str> = SkyboxCache::new();
    assert_eq!(c.lookup(7, TextureQuality::High), None);
    c.remember(7, TextureQuality::High, "high");
    c.remember(7, TextureQuality::Low, "low");
    c.remember(8, TextureQuality::High, "other");
    assert_eq!(c.lookup(7, TextureQuality::High), Some(&"high"));
    assert_eq!(c.lookup(7, TextureQuality::Low), Some(&"low"));
    assert_eq!(c.lookup(8, TextureQuality::High), Some(&"other"));
    assert_eq!(c.lookup(8, TextureQuality::Ultra), None);
    c.remember(7, TextureQuality::High, "again");
    assert_eq!(c.lookup(7, TextureQuality::High), Some(&"again"));
    assert_eq!(c.lookup(7, TextureQuality::Low), Some(&"low"));
}
