use cketh_minter::neuron_store::{ErrorType, GovernanceError, Neuron, NeuronId, NeuronStore};

fn simple_neuron(id: u64) -> Neuron {
    // Make sure different neurons have different accounts.
    let mut account = vec![0; 32];
    for (destination, data) in account.iter_mut().zip(id.to_le_bytes().iter().cycle()) {
        *destination = *data;
    }

    Neuron {
        id: Some(NeuronId { id }),
        account,
        ..Default::default()
    }
}

#[test]
fn test_batch_add_inactive_neurons_to_stable_memory() {
    // Each element is (Neuron, is inactive).
    let batch = vec![
        (simple_neuron(1), false),
        (simple_neuron(3), true),
        (simple_neuron(7), false),
        (simple_neuron(12), true),
    ];

    let id_to_neuron: Vec<(u64, Neuron)> = batch
        .iter()
        .map(|(neuron, _is_inactive)| (neuron.id.as_ref().unwrap().id, neuron.clone()))
        .collect();

    let mut neuron_store = NeuronStore::new(id_to_neuron);
    let batch_result = neuron_store.batch_add_inactive_neurons_to_stable_memory(batch);

    let last_neuron_id = NeuronId { id: 12 };
    assert_eq!(batch_result, Ok(Some(last_neuron_id)));

    // Neurons 3 and 12 were copied, since they are inactive.
    for neuron_id in [3, 12] {
        let neuron_id = NeuronId { id: neuron_id };
        let read_result = neuron_store.read_stable(neuron_id);
        match &read_result {
            Ok(ok) => assert_eq!(ok, &simple_neuron(neuron_id.id)),
            _ => panic!("{:?}", read_result),
        }
    }

    // Other neurons were not copied, since they are active.
    for neuron_id in 1..10 {
        if [3, 12].contains(&neuron_id) {
            continue;
        }
        let neuron_id = NeuronId { id: neuron_id };
        let read_result = neuron_store.read_stable(neuron_id);
        match &read_result {
            Err(err) => {
                let GovernanceError { error_type, error_message } = err;
                assert_eq!(Some(*error_type), Some(ErrorType::NotFound), "{:?}", err);
                let error_message = error_message.to_lowercase();
                assert!(error_message.contains("unable"), "{:?}", err);
                assert!(error_message.contains(&format!("{}", neuron_id.id)), "{:?}", err);
            }
            _ => panic!("{:#?}", read_result),
        }
    }
}

#[test]
fn should_refuse_neuron_already_in_stable_memory() {
    let mut neuron_store = NeuronStore::new(vec![(1, simple_neuron(1))]);
    assert_eq!(
        neuron_store.batch_add_inactive_neurons_to_stable_memory(vec![(simple_neuron(1), true)]),
        Ok(Some(NeuronId { id: 1 }))
    );
    let result =
        neuron_store.batch_add_inactive_neurons_to_stable_memory(vec![(simple_neuron(1), true)]);
    let error = result.err().unwrap();
    assert!(error.contains("already exists"), "{}", error);
}

#[test]
fn should_continue_from_nothing_after_empty_batch() {
    let mut neuron_store = NeuronStore::new(vec![]);
    assert_eq!(neuron_store.batch_add_inactive_neurons_to_stable_memory(vec![]), Ok(None));
    let err = neuron_store.read_stable(NeuronId { id: 1234 }).err().unwrap();
    assert_eq!(err.error_message, "Unable to find neuron 1234");
}
