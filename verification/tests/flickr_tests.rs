use birbs::flickr::{SimplePhoto, image_url, search_url};

#[test]
fn search_url_inserts_key_and_query() {
    let url = search_url("SECRET-REDACTED", "Chestnut-rumped Thornbill");
    assert_eq!(
        url,
        "https://www.flickr.com/services/rest/?method=flickr.photos.search&api_key=SECRET-REDACTED&text=Chestnut-rumped Thornbill&sort=relevance&per_page=10&media=photos&format=json&nojsoncallback=1"
    );
}

#[test]
fn image_url_addresses_the_static_farm() {
    let p = SimplePhoto {
        id: String::from("53000000001"),
        owner: String::from("someone"),
        title: String::from("a crow"),
        farm: 66,
        server: String::from("65535"),
        secret: String::from("abc123"),
    };
    assert_eq!(
        image_url(&p),
        "https://farm66.static.flickr.com/65535/53000000001_abc123.jpg"
    );
}
