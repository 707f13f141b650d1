use gateway::catalog::{DataStore, QueryRoot};
use gateway::id_translation::IdTranslator;
use gateway::pos_cache::seed_pos_articles;
use gateway::subgraph::{Fetch, PimClient, PriceClient, SubgraphConfig};

#[test]
fn stubs_mirror_the_catalogue() {
    let store = DataStore::with_seed_data();
    let translator = IdTranslator::with_seed_data();
    let pim = PimClient::new(SubgraphConfig::default());
    let prices = PriceClient::new(SubgraphConfig::default());
    for article in QueryRoot.articles(&store, None) {
        let entry = translator.translate(&article.ean).unwrap();
        match pim.get_article(&entry.matnr) {
            Fetch::Done(Ok(p)) => {
                assert_eq!(p.ean, article.ean);
                assert_eq!(p.name, article.name(&store));
                assert_eq!(p.brand, article.brand(&store));
                assert_eq!(p.description, article.description(&store));
                assert_eq!(p.image_url, article.image_url(&store));
            }
            _ => panic!("PIM stub lacks {}", entry.matnr),
        }
        match prices.get_price(&entry.matnr) {
            Fetch::Done(Ok(p)) => {
                let price = article.price(&store).unwrap();
                assert_eq!(p.amount, price.amount);
                assert_eq!(p.currency, price.currency);
            }
            _ => panic!("price stub lacks {}", entry.matnr),
        }
    }
}

#[test]
fn feed_articles_are_whitelisted() {
    let translator = IdTranslator::with_seed_data();
    for a in seed_pos_articles() {
        assert!(translator.is_whitelisted(&a.ean), "{}", a.ean);
    }
}
