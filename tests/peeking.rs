use fastfingers::{peeking_fold_while, PeekingFoldWhileTrait};

#[test]
fn test_infinite_stream() {
    let mut it = (0..).peekable();
    let result = peeking_fold_while(&mut it, Vec::new(), |mut acc, (&curr, peek)| {
        acc.push(curr);
        match peek {
            Some(next) => {
                if acc.iter().sum::<u32>() + next > 20 {
                    Err(acc)
                } else {
                    Ok(acc)
                }
            }
            None => Ok(acc),
        }
    });
    assert_eq!(result, Err(vec![0, 1, 2, 3, 4, 5]));
    assert_eq!(it.next(), Some(6));
}

#[test]
fn test_iter_consumed() {
    let mut it = (0..4).peekable();
    let result = it.peeking_fold_while(Vec::new(), |mut acc, (&curr, peek)| {
        acc.push(curr);
        match peek {
            Some(next) => {
                if acc.iter().sum::<u32>() + next > 20 {
                    Err(acc)
                } else {
                    Ok(acc)
                }
            }
            None => Ok(acc),
        }
    });
    assert_eq!(result, Ok(vec![0, 1, 2, 3]));
    assert_eq!(it.next(), None);
}

#[test]
fn test_trait_impl() {
    let mut it = (0..).peekable();
    let result: Result<Vec<u32>, Vec<u32>> =
        it.peeking_fold_while(Vec::new(), |mut acc, (&curr, peek)| {
            acc.push(curr);
            match peek {
                Some(next) => {
                    if acc.iter().sum::<u32>() + next > 20 {
                        Err(acc)
                    } else {
                        Ok(acc)
                    }
                }
                None => Ok(acc),
            }
        });
    assert_eq!(result, Err(vec![0, 1, 2, 3, 4, 5]));
    assert_eq!(it.next(), Some(6));
}

#[test]
fn empty_iterator_returns_init() {
    let mut it = std::iter::empty::<u32>().peekable();
    let result = peeking_fold_while(&mut it, 7u32, |acc, (&curr, _)| Ok(acc + curr));
    assert_eq!(result, Ok(7));
}
