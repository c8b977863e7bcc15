use matrix_gen::HashEmbedder;

#[test]
fn hash_embedder_keeps_its_dimension() {
    assert_eq!(HashEmbedder::new(16).dim(), 16);
    assert_eq!(HashEmbedder::new(1).dim(), 1);
}
