use budgy::rag::FinancialTip;
use budgy::rag::RagRetriever;
use budgy::rag::TipsDatabase;

fn tip(id: u32, category: &str, text: &str, tags: &[&str]) -> FinancialTip {
    FinancialTip {
        id,
        category: category.to_string(),
        tip: text.to_string(),
        tags: tags.iter().map(|t| t.to_string()).collect(),
    }
}

#[test]
fn test_relevance_scoring() {
    let tips = vec![
        FinancialTip {
            id: 1,
            category: "Food/Dining".to_string(),
            tip: "Cook at home to save money".to_string(),
            tags: vec!["cooking".to_string(), "savings".to_string()],
        },
        FinancialTip {
            id: 2,
            category: "Transportation".to_string(),
            tip: "Use public transit".to_string(),
            tags: vec!["commute".to_string(), "gas".to_string()],
        },
    ];

    let retriever = RagRetriever::new(tips);
    let results = retriever.retrieve("food cooking", 2);

    assert_eq!(results.len(), 2);
    assert_eq!(results[0].id, 1);
}

#[test]
fn test_top_k_limit() {
    let tips = vec![
        FinancialTip {
            id: 1,
            category: "Food".to_string(),
            tip: "Test tip".to_string(),
            tags: vec![],
        },
        FinancialTip {
            id: 2,
            category: "Transport".to_string(),
            tip: "Test tip 2".to_string(),
            tags: vec![],
        },
        FinancialTip {
            id: 3,
            category: "Utilities".to_string(),
            tip: "Test tip 3".to_string(),
            tags: vec![],
        },
    ];

    let retriever = RagRetriever::new(tips);
    let results = retriever.retrieve("test", 2);

    assert_eq!(results.len(), 2);
}

#[test]
fn relevance_counts_category_text_tags_and_exact_category() {
    let retriever = RagRetriever::new(vec![]);
    let t = tip(1, "Food", "Cook at home", &["cooking", "food"]);
    // "food": category contains it (10), text does not, one tag does (3),
    // and the category equals it (15).
    assert_eq!(retriever.calculate_relevance(&t, &["food"]), 28);
    // "cook": text contains it (5), tag "cooking" does (3).
    assert_eq!(retriever.calculate_relevance(&t, &["cook"]), 8);
    assert_eq!(retriever.calculate_relevance(&t, &["food", "cook"]), 36);
    assert_eq!(retriever.calculate_relevance(&t, &[]), 0);
    assert_eq!(retriever.calculate_relevance(&t, &["travel"]), 0);
}

#[test]
fn relevance_lowercases_the_tip() {
    let retriever = RagRetriever::new(vec![]);
    let t = tip(1, "FOOD", "COOK", &["GROCERIES"]);
    assert_eq!(retriever.calculate_relevance(&t, &["food"]), 25);
    assert_eq!(retriever.calculate_relevance(&t, &["groceries"]), 3);
    // query words are compared as given
    assert_eq!(retriever.calculate_relevance(&t, &["FOOD"]), 0);
}

#[test]
fn retrieve_lowercases_the_query() {
    let retriever = RagRetriever::new(vec![
        tip(1, "Transport", "Take the bus", &[]),
        tip(2, "Food", "Plan meals", &[]),
    ]);
    let results = retriever.retrieve("  FOOD\t", 1);
    assert_eq!(results.len(), 1);
    assert_eq!(results[0].id, 2);
}

#[test]
fn retrieve_orders_by_score_and_keeps_ties_in_order() {
    let retriever = RagRetriever::new(vec![
        tip(1, "Other", "nothing here", &[]),
        tip(2, "Savings", "save a little", &["budget"]),
        tip(3, "Budget", "plan", &[]),
        tip(4, "Misc", "budget tip", &[]),
        tip(5, "More", "another budget tip", &[]),
    ]);
    let results = retriever.retrieve("budget", 5);
    let ids: Vec<u32> = results.iter().map(|t| t.id).collect();
    // 3: category contains and equals "budget" (25); 4 and 5: text (5);
    // 2: tag (3); 1: nothing (0). Ties keep knowledge-base order.
    assert_eq!(ids, vec![3, 4, 5, 2, 1]);
}

#[test]
fn retrieve_with_smaller_cut_is_a_prefix() {
    let retriever = RagRetriever::new(vec![
        tip(1, "Other", "nothing here", &[]),
        tip(2, "Savings", "save a little", &["budget"]),
        tip(3, "Budget", "plan", &[]),
    ]);
    let all: Vec<u32> = retriever.retrieve("budget save", 3).iter().map(|t| t.id).collect();
    let two: Vec<u32> = retriever.retrieve("budget save", 2).iter().map(|t| t.id).collect();
    assert_eq!(&all[..2], &two[..]);
}

#[test]
fn retrieve_without_words_keeps_knowledge_base_order() {
    let retriever = RagRetriever::new(vec![
        tip(7, "A", "a", &[]),
        tip(8, "B", "b", &[]),
        tip(9, "C", "c", &[]),
    ]);
    let ids: Vec<u32> = retriever.retrieve("   ", 2).iter().map(|t| t.id).collect();
    assert_eq!(ids, vec![7, 8]);
    assert_eq!(retriever.retrieve("anything", 0).len(), 0);
    assert_eq!(retriever.retrieve("anything", 10).len(), 3);
}

#[test]
fn retrieve_checked_answers_like_retrieve() {
    let retriever = RagRetriever::new(vec![tip(1, "Food", "eat", &[]), tip(2, "Gas", "drive", &[])]);
    let checked = retriever.retrieve_checked("drive", 1).expect("scores fit");
    assert_eq!(checked.len(), 1);
    assert_eq!(checked[0].id, 2);
}

#[test]
fn knowledge_base_accessors() {
    let db = TipsDatabase { tips: vec![tip(1, "Food", "eat", &[]), tip(2, "Gas", "drive", &[])] };
    let retriever = RagRetriever::from_database(db);
    assert_eq!(retriever.get_tip_count(), 2);
    let all = retriever.get_all_tips();
    assert_eq!(all.len(), 2);
    assert_eq!(all[1].category, "Gas");
}

#[test]
fn retrieve_ignores_ascii_case_and_word_order() {
    let retriever = RagRetriever::new(vec![
        tip(1, "Transport", "Take the bus", &["commute"]),
        tip(2, "Food", "Cook at home", &["cooking"]),
        tip(3, "Savings", "Cook and save", &["food"]),
    ]);
    let ids = |q: &str| -> Vec<u32> { retriever.retrieve(q, 3).iter().map(|t| t.id).collect() };
    let base = ids("food cook");
    assert_eq!(base, vec![2, 3, 1]);
    assert_eq!(ids("FOOD COOK"), base);
    assert_eq!(ids("cook\t  food"), base);
    assert_eq!(ids("Cook FOOD"), base);
}
